//! Typed errors for the transport, protocol, storage and scan layers.

use vstd::prelude::*;
use crate::constants::SW_DONGLE_LOCKED;

verus! {

/// Everything that can go wrong inside the library.
///
/// Framing errors abort the current exchange; status errors carry the
/// originating instruction so callers can distinguish recoverable
/// conditions (a locked dongle) from terminal ones; format errors mark a
/// wallet file as untrustworthy rather than partially salvaging it.
#[derive(Debug, Clone, Copy, PartialEq, Eq, Structural)]
pub enum Error {
    /// A packet arrived on the wrong channel.
    ApduWrongChannel { expected: u16, found: u16 },
    /// A packet carried the wrong tag byte.
    ApduWrongTag { expected: u8, found: u8 },
    /// A packet arrived out of sequence.
    ApduWrongSequence { expected: u16, found: u16 },
    /// No dongle was detected.
    DongleNotFound,
    /// More than one dongle was detected.
    DongleNotUnique,
    /// The dongle replied to an instruction with a non-success status word.
    ResponseBadStatus { instruction: u8, status: u16 },
    /// A response's data length does not fit the instruction's shape.
    ResponseWrongLength { instruction: u8, min_expected: usize, max_expected: usize, found: usize },
    /// Data ended before a complete value could be read.
    UnexpectedEof,
    /// The file is not a wallet file at all: the identifying part of the
    /// magic constant is absent.
    NotAWalletFile,
    /// The file is a wallet file of an unsupported format version.
    WrongWalletVersion { expected: u32, found: u32 },
    /// The byte length of the file body is not a whole number of entries.
    BadWalletSize { body_len: usize },
    /// An entry failed authenticated decryption; the file is corrupt.
    EntryDecryptionFailed { entry_index: usize },
    /// An entry decrypted but its plaintext fields are malformed.
    EntryMalformed { entry_index: usize },
    /// Two decrypted entries claim the same `(descriptor index,
    /// derivation index)` pair, which the format keeps unique.
    DuplicateEntryPair,
    /// A descriptor index is out of range.
    DescriptorIndexOutOfRange { index: usize, n_descriptors: usize },
    /// The descriptor could not be parsed or derived at the wanted index.
    BadDescriptor { descriptor_index: usize },
    /// Every derivation index of the descriptor is already in use.
    DerivationIndexExhausted { descriptor_index: usize },
    /// The freeform note exceeds the fixed field size.
    NoteTooLong { len: usize },
}

impl Error {
    /// Whether this error reports the dongle-locked status word, which a
    /// caller may resolve by asking the user to unlock the dongle and
    /// retrying the whole command.
    pub fn is_dongle_locked(&self) -> (r: bool)
        ensures
            r == (self matches Error::ResponseBadStatus { status, .. } && status == SW_DONGLE_LOCKED),
    {
        match *self {
            Error::ResponseBadStatus { status, .. } => status == SW_DONGLE_LOCKED,
            _ => false,
        }
    }

    /// Whether this error is a packet-framing error, which is structural
    /// and never worth retrying.
    pub fn is_framing(&self) -> (r: bool)
        ensures
            r == (self matches Error::ApduWrongChannel { .. }
                || self matches Error::ApduWrongTag { .. }
                || self matches Error::ApduWrongSequence { .. }),
    {
        match *self {
            Error::ApduWrongChannel { .. } => true,
            Error::ApduWrongTag { .. } => true,
            Error::ApduWrongSequence { .. } => true,
            _ => false,
        }
    }

    /// Whether this error marks a wallet file as unusable: wrong magic,
    /// wrong version, bad size, or an entry that fails to decrypt or parse.
    pub fn is_format(&self) -> (r: bool)
        ensures
            r == (self matches Error::NotAWalletFile
                || self matches Error::WrongWalletVersion { .. }
                || self matches Error::BadWalletSize { .. }
                || self matches Error::EntryDecryptionFailed { .. }
                || self matches Error::EntryMalformed { .. }
                || self matches Error::DuplicateEntryPair),
    {
        match *self {
            Error::NotAWalletFile => true,
            Error::WrongWalletVersion { .. } => true,
            Error::BadWalletSize { .. } => true,
            Error::EntryDecryptionFailed { .. } => true,
            Error::EntryMalformed { .. } => true,
            Error::DuplicateEntryPair => true,
            _ => false,
        }
    }
}

} // verus!
