//! Protocol and file-format constants.

use vstd::prelude::*;

verus! {

/// USB vendor ID of the supported dongle.
pub const VENDOR_ID: u16 = 0x2c97;
/// USB product ID of the supported dongle.
pub const PRODUCT_ID: u16 = 0x0001;

/// Channel identifier used for every APDU exchange.
pub const DEFAULT_CHANNEL: u16 = 0x0101;
/// Tag byte marking an APDU packet.
pub const TAG_APDU: u8 = 0x05;
/// Size in bytes of every packet on the wire.
pub const PACKET_SIZE: usize = 64;

/// Class byte of every command frame the dongle understands.
pub const BTCHIP_CLA: u8 = 0xe0;

/// Instruction: query the firmware version.
pub const INS_GET_FIRMWARE_VERSION: u8 = 0xc4;
/// Instruction: retrieve a public key for a derivation path.
pub const INS_GET_WALLET_PUBLIC_KEY: u8 = 0x40;
/// Instruction: sign a message.
pub const INS_SIGN_MESSAGE: u8 = 0x4e;
/// Instruction: request random bytes.
pub const INS_GET_RANDOM: u8 = 0xc0;

/// Status word: success.
pub const SW_OK: u16 = 0x9000;
/// Status word: wrong length field.
pub const SW_BAD_LENGTH: u16 = 0x6700;
/// Status word: invalid data.
pub const SW_BAD_DATA: u16 = 0x6A80;
/// Status word: bad P1 or P2 parameter.
pub const SW_BAD_P1_OR_P2: u16 = 0x6B00;
/// Status word: instruction not supported.
pub const SW_INS_NOT_SUPPORTED: u16 = 0x6D00;
/// Status word: the dongle is locked and must be unlocked by the user.
pub const SW_DONGLE_LOCKED: u16 = 0x6982;
/// Status word: invalid-parameter exception.
pub const SW_EXC_INVALID_PARAMETER: u16 = 0x6F02;
/// Status word: halted exception.
pub const SW_EXC_HALTED: u16 = 0x6FAA;

/// Magic constant opening a wallet file; the low three bytes encode the
/// format version, the rest identify the file as a wallet at all.
pub const MAGIC: u64 = 0x96e88001;
/// Size in bytes of a decrypted wallet entry.
pub const DECRYPTED_ENTRY_SIZE: usize = 256;
/// Size in bytes of an encrypted wallet entry (plaintext plus the
/// authentication tag).
pub const ENCRYPTED_ENTRY_SIZE: usize = 288;
/// Maximum length in bytes of the user ID field of an entry.
pub const MAX_USER_ID_BYTES: usize = 32;
/// Maximum length in bytes of the freeform note field of an entry.
pub const MAX_NOTE_BYTES: usize = 60;
/// Exact length in bytes of the creation-timestamp field of an entry.
pub const TIMESTAMP_BYTES: usize = 24;

/// How many blocks before the persisted checkpoint a rescan starts when no
/// explicit start height is given.
pub const LOOKBACK_MARGIN: u64 = 100;
/// A rescan persists its progress every this many blocks.
pub const CHECKPOINT_INTERVAL: u64 = 1000;

} // verus!
