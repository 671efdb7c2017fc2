//! Encrypted wallet store behaviour: entry round trips, authentication,
//! file format checks and address creation.

use icboc::constants::{DECRYPTED_ENTRY_SIZE, ENCRYPTED_ENTRY_SIZE};
use icboc::crypto::{decrypt_entry, encrypt_entry};
use icboc::dongle::derive_wallet_key_nonce;
use icboc::error::Error;
use icboc::wallet::{Entry, Wallet, parse_entry, serialize_entry};

const DESC: &str = "pk(0279be667ef9dcbbac55a06295ce870b07029bfcdb2dce28d959f2815b16f81798)";

fn timestamp() -> Vec<u8> {
    b"2024-01-01 00:00:00+0000".to_vec()
}

fn key_nonce() -> (Vec<u8>, Vec<u8>) {
    derive_wallet_key_nonce(&vec![0x02; 33])
}

fn sample_entry() -> Entry {
    Entry {
        descriptor_index: 3,
        derivation_index: 7,
        timestamp: timestamp(),
        note: b"rent payment".to_vec(),
        user_id: b"alice".to_vec(),
    }
}

#[test]
fn key_and_nonce_derivation_digests_its_input() {
    let pk = vec![0x02; 33];
    let (key, nonce) = derive_wallet_key_nonce(&pk);
    assert_eq!(key.len(), 32);
    assert_eq!(nonce.len(), 32);
    // a digest, not an echo of the input, and domain-separated
    assert_ne!(key, pk);
    assert_ne!(nonce, pk);
    assert_ne!(key, nonce);
    let (key2, nonce2) = derive_wallet_key_nonce(&pk);
    assert_eq!(key, key2);
    assert_eq!(nonce, nonce2);
    let (key3, _) = derive_wallet_key_nonce(&vec![0x03; 33]);
    assert_ne!(key, key3);
}

#[test]
fn entry_serialization_round_trip() {
    let e = sample_entry();
    let bytes = serialize_entry(&e);
    assert_eq!(bytes.len(), DECRYPTED_ENTRY_SIZE);
    let back = parse_entry(&bytes).unwrap();
    assert_eq!(back.descriptor_index, 3);
    assert_eq!(back.derivation_index, 7);
    assert_eq!(back.timestamp, timestamp());
    assert_eq!(back.note, b"rent payment".to_vec());
    assert_eq!(back.user_id, b"alice".to_vec());
}

#[test]
fn entry_encrypt_decrypt_round_trip() {
    let (key, nonce) = key_nonce();
    let pt = serialize_entry(&sample_entry());
    let ct = encrypt_entry(&pt, &key, &nonce, 5);
    assert_eq!(ct.len(), ENCRYPTED_ENTRY_SIZE);
    assert_ne!(&ct[..DECRYPTED_ENTRY_SIZE], &pt[..]);
    let back = decrypt_entry(&ct, &key, &nonce, 5).unwrap();
    assert_eq!(back, pt);
}

#[test]
fn flipping_any_ciphertext_bit_fails_decryption() {
    let (key, nonce) = key_nonce();
    let pt = serialize_entry(&sample_entry());
    let ct = encrypt_entry(&pt, &key, &nonce, 0);
    // every byte of the ciphertext body and of the tag
    for pos in 0..ENCRYPTED_ENTRY_SIZE {
        let mut bad = ct.clone();
        bad[pos] ^= 1;
        let r = decrypt_entry(&bad, &key, &nonce, 0);
        assert_eq!(r, Err(Error::EntryDecryptionFailed { entry_index: 0 }), "byte {}", pos);
    }
}

#[test]
fn decryption_is_bound_to_key_nonce_and_index() {
    let (key, nonce) = key_nonce();
    let pt = serialize_entry(&sample_entry());
    let ct = encrypt_entry(&pt, &key, &nonce, 4);
    assert!(decrypt_entry(&ct, &key, &nonce, 5).is_err());
    let (other_key, other_nonce) = derive_wallet_key_nonce(&vec![0x03; 33]);
    assert!(decrypt_entry(&ct, &other_key, &nonce, 4).is_err());
    assert!(decrypt_entry(&ct, &key, &other_nonce, 4).is_err());
}

#[test]
fn save_open_round_trip() {
    let (key, nonce) = key_nonce();
    let mut w = Wallet::new();
    w.add_descriptor(DESC.to_string());
    w.block_height = 123456;
    w.add_address(0, None, timestamp(), b"first".to_vec()).unwrap();
    w.add_address(0, None, timestamp(), b"second".to_vec()).unwrap();
    let bytes = w.save(&key, &nonce);
    assert_eq!(bytes.len(), 16 + 2 * ENCRYPTED_ENTRY_SIZE);
    let back = Wallet::open(&bytes, &key, &nonce).unwrap();
    assert_eq!(back.block_height, 123456);
    assert_eq!(back.entries.len(), 2);
    assert_eq!(back.entries[0].derivation_index, 0);
    assert_eq!(back.entries[1].derivation_index, 1);
    assert_eq!(back.entries[0].note, b"first".to_vec());
    // the descriptor list is not persisted in the file
    assert_eq!(back.n_descriptors(), 0);
}

#[test]
fn altered_magic_never_opens() {
    let (key, nonce) = key_nonce();
    let w = Wallet::new();
    let good = w.save(&key, &nonce);
    // clobber the identifying part of the magic
    for pos in 0..8 {
        let mut bad = good.clone();
        bad[pos] ^= 0xff;
        let r = Wallet::open(&bad, &key, &nonce);
        match r {
            Err(Error::NotAWalletFile) | Err(Error::WrongWalletVersion { .. }) => {}
            other => panic!("magic byte {}: {:?}", pos, other),
        }
    }
}

#[test]
fn wrong_version_is_distinguished_from_foreign_file() {
    let (key, nonce) = key_nonce();
    let w = Wallet::new();
    let mut bytes = w.save(&key, &nonce);
    // the low three bytes of the magic carry the version
    bytes[0] ^= 1;
    assert_eq!(
        Wallet::open(&bytes, &key, &nonce),
        Err(Error::WrongWalletVersion { expected: 0xe88001, found: 0xe88000 })
    );
    // the rest identifies the file as a wallet at all
    let mut foreign = w.save(&key, &nonce);
    foreign[3] ^= 0xff;
    assert_eq!(Wallet::open(&foreign, &key, &nonce), Err(Error::NotAWalletFile));
}

#[test]
fn truncated_and_misshapen_files_are_rejected() {
    let (key, nonce) = key_nonce();
    let w = Wallet::new();
    let good = w.save(&key, &nonce);
    assert_eq!(Wallet::open(&good[..10].to_vec(), &key, &nonce), Err(Error::UnexpectedEof));
    let mut odd = good.clone();
    odd.push(0);
    assert_eq!(Wallet::open(&odd, &key, &nonce), Err(Error::BadWalletSize { body_len: 1 }));
}

#[test]
fn corrupted_entry_fails_the_whole_load() {
    let (key, nonce) = key_nonce();
    let mut w = Wallet::new();
    w.add_descriptor(DESC.to_string());
    w.add_address(0, None, timestamp(), vec![]).unwrap();
    w.add_address(0, None, timestamp(), vec![]).unwrap();
    let mut bytes = w.save(&key, &nonce);
    // flip one bit inside the second entry's ciphertext
    let pos = 16 + ENCRYPTED_ENTRY_SIZE + 100;
    bytes[pos] ^= 1;
    assert_eq!(
        Wallet::open(&bytes, &key, &nonce),
        Err(Error::EntryDecryptionFailed { entry_index: 1 })
    );
}

#[test]
fn two_addresses_get_successive_indices() {
    // an empty wallet with one descriptor at index 0
    let mut w = Wallet::new();
    w.add_descriptor(DESC.to_string());
    let a = w
        .add_address(0, None, b"2024-01-01 00:00:00+0000".to_vec(), b"".to_vec())
        .unwrap();
    assert_eq!(a.descriptor_index, 0);
    assert_eq!(a.derivation_index, 0);
    let b = w
        .add_address(0, None, b"2024-01-01 00:00:00+0000".to_vec(), b"".to_vec())
        .unwrap();
    assert_eq!(b.derivation_index, 1);
    // pk(K) derives the bare script: PUSH33 K CHECKSIG
    let mut expected = vec![0x21];
    expected.extend_from_slice(
        &[
            0x02, 0x79, 0xbe, 0x66, 0x7e, 0xf9, 0xdc, 0xbb, 0xac, 0x55, 0xa0, 0x62, 0x95, 0xce,
            0x87, 0x0b, 0x07, 0x02, 0x9b, 0xfc, 0xdb, 0x2d, 0xce, 0x28, 0xd9, 0x59, 0xf2, 0x81,
            0x5b, 0x16, 0xf8, 0x17, 0x98,
        ],
    );
    expected.push(0xac);
    assert_eq!(a.script_pubkey, expected);
    assert_eq!(b.script_pubkey, expected);
}

#[test]
fn address_errors_are_typed() {
    let mut w = Wallet::new();
    w.add_descriptor(DESC.to_string());
    assert_eq!(
        w.add_address(5, None, timestamp(), vec![]),
        Err(Error::DescriptorIndexOutOfRange { index: 5, n_descriptors: 1 })
    );
    assert_eq!(
        w.add_address(0, None, timestamp(), vec![0; 61]),
        Err(Error::NoteTooLong { len: 61 })
    );
    let mut w2 = Wallet::new();
    w2.add_descriptor("not a descriptor".to_string());
    assert_eq!(
        w2.add_address(0, None, timestamp(), vec![]),
        Err(Error::BadDescriptor { descriptor_index: 0 })
    );
}

#[test]
fn explicit_duplicate_index_overwrites_in_place() {
    let mut w = Wallet::new();
    w.add_descriptor(DESC.to_string());
    w.add_address(0, Some(4), timestamp(), b"old".to_vec()).unwrap();
    assert_eq!(w.entries.len(), 1);
    w.add_address(0, Some(4), timestamp(), b"new".to_vec()).unwrap();
    assert_eq!(w.entries.len(), 1);
    assert_eq!(w.entries[0].note, b"new".to_vec());
    // the next unused index skips past the explicit one
    let a = w.add_address(0, None, timestamp(), vec![]).unwrap();
    assert_eq!(a.derivation_index, 5);
}

const XPUB: &str = "xpub6BgBgsespWvERF3LHQu6CnqdvfEvtMcQjYrcRzx53QJjSxarj2afYWcLteoGVky7D3UKDP9QyrLprQ3VCECoY49yfdDEHGCtMMj92pReUsQ";

#[test]
fn hardened_descriptors_error_instead_of_deriving() {
    // a hardened step in the fixed path, and a hardened wildcard: both
    // parse, neither can be derived watch-only
    for desc in [
        format!("pk({}/1h/2)", XPUB),
        format!("pk({}/*h)", XPUB),
    ] {
        let mut w = Wallet::new();
        w.add_descriptor(desc.clone());
        assert_eq!(
            w.add_address(0, None, timestamp(), vec![]),
            Err(Error::BadDescriptor { descriptor_index: 0 }),
            "descriptor {}",
            desc
        );
    }
}

#[test]
fn unhardened_wildcard_derives_per_index() {
    let mut w = Wallet::new();
    w.add_descriptor(format!("pk({}/0/*)", XPUB));
    let a = w.add_address(0, Some(0), timestamp(), vec![]).unwrap();
    let b = w.add_address(0, Some(1), timestamp(), vec![]).unwrap();
    assert_eq!(a.script_pubkey.len(), 35);
    assert_ne!(a.script_pubkey, b.script_pubkey);
}

#[test]
fn duplicate_pairs_in_a_file_are_refused() {
    let (key, nonce) = key_nonce();
    let entry = Entry {
        descriptor_index: 0,
        derivation_index: 5,
        timestamp: timestamp(),
        note: b"one".to_vec(),
        user_id: vec![],
    };
    let twin = Entry { note: b"two".to_vec(), ..entry.clone() };
    let w = Wallet { block_height: 9, descriptors: vec![], entries: vec![entry, twin] };
    let bytes = w.save(&key, &nonce);
    assert_eq!(Wallet::open(&bytes, &key, &nonce), Err(Error::DuplicateEntryPair));
}

#[test]
fn address_encoding_covers_the_right_scripts() {
    // a version-0 witness program carries an address on the fixed network
    let mut wpkh_spk = vec![0x00, 0x14];
    wpkh_spk.extend_from_slice(&[0x11; 20]);
    let encoded = icboc::descriptor::address_encoding(&wpkh_spk).unwrap();
    assert!(encoded.starts_with("bc1q"), "{}", encoded);
    let again = icboc::descriptor::address_encoding(&wpkh_spk).unwrap();
    assert_eq!(encoded, again);
    // a bare public-key script has no address encoding
    let mut w = Wallet::new();
    w.add_descriptor(DESC.to_string());
    let a = w.add_address(0, None, timestamp(), vec![]).unwrap();
    assert_eq!(icboc::descriptor::address_encoding(&a.script_pubkey), None);
}

#[test]
fn error_kinds_classify() {
    assert!(Error::NotAWalletFile.is_format());
    assert!(Error::EntryDecryptionFailed { entry_index: 0 }.is_format());
    assert!(!Error::DongleNotFound.is_format());
    assert!(Error::ApduWrongTag { expected: 5, found: 6 }.is_framing());
    assert!(!Error::UnexpectedEof.is_framing());
}
