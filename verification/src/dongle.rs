//! The dongle capability surface: one request builder and one response
//! parser per supported instruction, plus the derivation that binds the
//! wallet file's encryption key to the physical dongle.
//!
//! Exchanging the frames with the device is the caller's job; every
//! function here is a pure mapping between frames, raw reply bytes and
//! plain values.

use vstd::prelude::*;
use crate::apdu::ApduFrame;
use crate::constants::{BTCHIP_CLA, INS_GET_FIRMWARE_VERSION, INS_GET_WALLET_PUBLIC_KEY,
    INS_GET_RANDOM, INS_SIGN_MESSAGE};
use crate::crypto::sha256_of;
use crate::error::Error;
use crate::util::{be32, push_be32, copy_range};

verus! {

/// A dongle firmware version.
#[derive(Debug, Clone, Copy, PartialEq, Eq, Structural)]
pub struct FirmwareVersion {
    /// Major version.
    pub major: u8,
    /// Minor version.
    pub minor: u8,
    /// Patch version.
    pub patch: u8,
}

/// A public-key reply: the key itself, its address encoding and the
/// BIP32 chain code.
#[derive(Debug, Clone, PartialEq, Eq)]
pub struct WalletPublicKey {
    /// The raw public key bytes.
    pub public_key: Vec<u8>,
    /// The address string bytes the dongle computed for the key.
    pub address: Vec<u8>,
    /// The 32-byte chain code.
    pub chain_code: Vec<u8>,
}

/// The serialized form of a BIP32 derivation path: a count byte, then
/// each element as four big-endian bytes.
pub open spec fn path_bytes(path: Seq<u32>) -> Seq<u8>
    decreases path.len(),
{
    if path.len() == 0 {
        Seq::empty()
    } else {
        path_bytes(path.drop_last()) + be32(path.last())
    }
}

/// Serializes a derivation path with its leading count byte.
pub fn encode_path(path: &Vec<u32>) -> (r: Vec<u8>)
    requires
        path@.len() <= 10,
    ensures
        r@ == seq![path@.len() as u8] + path_bytes(path@),
        r@.len() == 1 + 4 * path@.len(),
{
    let mut r: Vec<u8> = Vec::new();
    r.push(path.len() as u8);
    let mut i: usize = 0;
    while i < path.len()
        invariant
            i <= path@.len(),
            path@.len() <= 10,
            r@ == seq![path@.len() as u8] + path_bytes(path@.take(i as int)),
            r@.len() == 1 + 4 * i,
        decreases path@.len() - i,
    {
        push_be32(&mut r, path[i]);
        i += 1;
        proof {
            assert(path@.take(i as int).drop_last() =~= path@.take(i - 1));
            assert(path@.take(i as int).last() == path@[i - 1]);
        }
    }
    proof {
        assert(path@.take(i as int) =~= path@);
    }
    r
}

/// Builds the firmware-version query frame.
pub fn get_firmware_version_request() -> (r: ApduFrame)
    ensures
        r.class == BTCHIP_CLA,
        r.instruction == INS_GET_FIRMWARE_VERSION,
        r.param1 == 0 && r.param2 == 0,
        r.data@ == Seq::<u8>::empty(),
        r.wf(),
{
    ApduFrame {
        class: BTCHIP_CLA,
        instruction: INS_GET_FIRMWARE_VERSION,
        param1: 0,
        param2: 0,
        data: Vec::new(),
    }
}

/// What parsing a firmware-version reply yields: the reply must be five
/// to eight bytes, with the version triple at bytes two to four.
pub open spec fn parse_firmware_version_spec(data: Seq<u8>) -> Result<FirmwareVersion, Error> {
    if 5 <= data.len() <= 8 {
        Ok(FirmwareVersion { major: data[2], minor: data[3], patch: data[4] })
    } else {
        Err(Error::ResponseWrongLength {
            instruction: INS_GET_FIRMWARE_VERSION,
            min_expected: 5,
            max_expected: 8,
            found: data.len() as usize,
        })
    }
}

/// Decodes a firmware-version reply.
pub fn parse_firmware_version(data: &Vec<u8>) -> (r: Result<FirmwareVersion, Error>)
    ensures
        r == parse_firmware_version_spec(data@),
{
    if data.len() < 5 || data.len() > 8 {
        return Err(Error::ResponseWrongLength {
            instruction: INS_GET_FIRMWARE_VERSION,
            min_expected: 5,
            max_expected: 8,
            found: data.len(),
        });
    }
    Ok(FirmwareVersion { major: data[2], minor: data[3], patch: data[4] })
}

/// Builds the public-key-retrieval frame for a derivation path.
pub fn get_wallet_public_key_request(path: &Vec<u32>) -> (r: ApduFrame)
    requires
        path@.len() <= 10,
    ensures
        r.class == BTCHIP_CLA,
        r.instruction == INS_GET_WALLET_PUBLIC_KEY,
        r.param1 == 0 && r.param2 == 0,
        r.data@ == seq![path@.len() as u8] + path_bytes(path@),
        r.wf(),
{
    ApduFrame {
        class: BTCHIP_CLA,
        instruction: INS_GET_WALLET_PUBLIC_KEY,
        param1: 0,
        param2: 0,
        data: encode_path(path),
    }
}

/// What parsing a public-key reply yields: a length-prefixed key, a
/// length-prefixed address and a 32-byte chain code, with nothing left
/// over.
pub open spec fn parse_wallet_public_key_spec(data: Seq<u8>) -> Result<
    (Seq<u8>, Seq<u8>, Seq<u8>),
    Error,
> {
    if data.len() < 1 {
        Err(Error::UnexpectedEof)
    } else {
        let pk_len = data[0] as int;
        if data.len() < 2 + pk_len {
            Err(Error::UnexpectedEof)
        } else {
            let addr_len = data[1 + pk_len] as int;
            let total = 2 + pk_len + addr_len + 32;
            if data.len() < total {
                Err(Error::UnexpectedEof)
            } else if data.len() != total {
                Err(Error::ResponseWrongLength {
                    instruction: INS_GET_WALLET_PUBLIC_KEY,
                    min_expected: total as usize,
                    max_expected: total as usize,
                    found: data.len() as usize,
                })
            } else {
                Ok((
                    data.subrange(1, 1 + pk_len),
                    data.subrange(2 + pk_len, 2 + pk_len + addr_len),
                    data.subrange(total - 32, total),
                ))
            }
        }
    }
}

/// Decodes a public-key reply.
pub fn parse_wallet_public_key(data: &Vec<u8>) -> (r: Result<WalletPublicKey, Error>)
    ensures
        match r {
            Ok(k) => parse_wallet_public_key_spec(data@) == Ok::<(Seq<u8>, Seq<u8>, Seq<u8>),
                Error,
            >((k.public_key@, k.address@, k.chain_code@)),
            Err(e) => parse_wallet_public_key_spec(data@) == Err::<(Seq<u8>, Seq<u8>, Seq<u8>),
                Error,
            >(e),
        },
{
    let n = data.len();
    if n < 1 {
        return Err(Error::UnexpectedEof);
    }
    let pk_len = data[0] as usize;
    if n < 2 + pk_len {
        return Err(Error::UnexpectedEof);
    }
    let addr_len = data[1 + pk_len] as usize;
    let total = 2 + pk_len + addr_len + 32;
    if n < total {
        return Err(Error::UnexpectedEof);
    }
    if n != total {
        return Err(Error::ResponseWrongLength {
            instruction: INS_GET_WALLET_PUBLIC_KEY,
            min_expected: total,
            max_expected: total,
            found: n,
        });
    }
    let public_key = copy_range(data, 1, 1 + pk_len);
    let address = copy_range(data, 2 + pk_len, 2 + pk_len + addr_len);
    let chain_code = copy_range(data, total - 32, total);
    Ok(WalletPublicKey { public_key, address, chain_code })
}

/// Builds the random-bytes request; the wanted count travels as the one
/// data byte.
pub fn get_random_request(count: u8) -> (r: ApduFrame)
    ensures
        r.class == BTCHIP_CLA,
        r.instruction == INS_GET_RANDOM,
        r.param1 == 0 && r.param2 == 0,
        r.data@ == seq![count],
        r.wf(),
{
    let mut data: Vec<u8> = Vec::new();
    data.push(count);
    ApduFrame { class: BTCHIP_CLA, instruction: INS_GET_RANDOM, param1: 0, param2: 0, data }
}

/// Checks a random-bytes reply: exactly the requested count comes back.
pub fn parse_random(data: &Vec<u8>, count: u8) -> (r: Result<Vec<u8>, Error>)
    ensures
        data@.len() == count as int ==> (r matches Ok(d) && d@ == data@),
        data@.len() != count as int ==> r == Err::<Vec<u8>, Error>(Error::ResponseWrongLength {
            instruction: INS_GET_RANDOM,
            min_expected: count as usize,
            max_expected: count as usize,
            found: data@.len() as usize,
        }),
{
    if data.len() != count as usize {
        return Err(Error::ResponseWrongLength {
            instruction: INS_GET_RANDOM,
            min_expected: count as usize,
            max_expected: count as usize,
            found: data.len(),
        });
    }
    Ok(copy_range(data, 0, data.len()))
}

/// Builds the message-signing frame: the derivation path followed by the
/// message itself.
pub fn sign_message_request(path: &Vec<u32>, message: &Vec<u8>) -> (r: ApduFrame)
    requires
        path@.len() <= 10,
        1 + 4 * path@.len() + message@.len() <= 255,
    ensures
        r.class == BTCHIP_CLA,
        r.instruction == INS_SIGN_MESSAGE,
        r.param1 == 0 && r.param2 == 0,
        r.data@ == seq![path@.len() as u8] + path_bytes(path@) + message@,
        r.wf(),
{
    let mut data = encode_path(path);
    crate::crypto::push_all(&mut data, message);
    ApduFrame { class: BTCHIP_CLA, instruction: INS_SIGN_MESSAGE, param1: 0, param2: 0, data }
}

/// Checks a signature reply: a DER-encoded signature is eight to 72
/// bytes.
pub fn parse_signature(data: &Vec<u8>) -> (r: Result<Vec<u8>, Error>)
    ensures
        8 <= data@.len() <= 72 ==> (r matches Ok(d) && d@ == data@),
        !(8 <= data@.len() <= 72) ==> r == Err::<Vec<u8>, Error>(Error::ResponseWrongLength {
            instruction: INS_SIGN_MESSAGE,
            min_expected: 8,
            max_expected: 72,
            found: data@.len() as usize,
        }),
{
    if data.len() < 8 || data.len() > 72 {
        return Err(Error::ResponseWrongLength {
            instruction: INS_SIGN_MESSAGE,
            min_expected: 8,
            max_expected: 72,
            found: data.len(),
        });
    }
    Ok(copy_range(data, 0, data.len()))
}

/// The wallet-reserved derivation path whose public key seeds the wallet
/// file's encryption key and nonce.
pub fn wallet_key_path() -> (r: Vec<u32>)
    ensures
        r@ == seq![0x8001CB0Cu32],
{
    let mut r: Vec<u32> = Vec::new();
    r.push(0x8001CB0C);
    proof {
        assert(r@ =~= seq![0x8001CB0Cu32]);
    }
    r
}

/// The wallet encryption key derived from the dongle's reserved public
/// key.
pub open spec fn wallet_key_spec(pk: Seq<u8>) -> Seq<u8> {
    sha256_of(seq![0x6bu8] + pk)
}

/// The wallet base nonce derived from the dongle's reserved public key;
/// a domain byte separates it from the key so the two never coincide
/// inputs.
pub open spec fn wallet_nonce_spec(pk: Seq<u8>) -> Seq<u8> {
    sha256_of(seq![0x6eu8] + pk)
}

/// Derives the wallet file's encryption key and base nonce from the
/// public key the dongle returned for the reserved path.  This binds the
/// wallet file to the specific physical dongle.
pub fn derive_wallet_key_nonce(public_key: &Vec<u8>) -> (r: (Vec<u8>, Vec<u8>))
    ensures
        r.0@ == wallet_key_spec(public_key@),
        r.1@ == wallet_nonce_spec(public_key@),
        r.0@.len() == 32,
        r.1@.len() == 32,
{
    let mut key_input: Vec<u8> = Vec::new();
    key_input.push(0x6b);
    crate::crypto::push_all(&mut key_input, public_key);
    let mut nonce_input: Vec<u8> = Vec::new();
    nonce_input.push(0x6e);
    crate::crypto::push_all(&mut nonce_input, public_key);
    proof {
        assert(key_input@ =~= seq![0x6bu8] + public_key@);
        assert(nonce_input@ =~= seq![0x6eu8] + public_key@);
    }
    let key = crate::crypto::sha256(&key_input);
    let nonce = crate::crypto::sha256(&nonce_input);
    (key, nonce)
}

} // verus!
