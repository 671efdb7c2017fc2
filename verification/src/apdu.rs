//! APDU command frames and status-word-terminated responses.
//!
//! A command frame is serialized as class, instruction, the two parameter
//! bytes, a length byte and the data, then framed by the packet transport.
//! A reply consists of response data followed by a 16-bit status word;
//! anything but the success word becomes a status error carrying the
//! originating instruction, so callers can tell a locked dongle from a
//! terminal failure.  The engine never retries: retry policy belongs to
//! callers.

use vstd::prelude::*;
use crate::constants::{SW_OK, SW_BAD_LENGTH, SW_BAD_DATA, SW_BAD_P1_OR_P2, SW_INS_NOT_SUPPORTED,
    SW_DONGLE_LOCKED, SW_EXC_INVALID_PARAMETER, SW_EXC_HALTED};
use crate::error::Error;
use crate::transport::{AsmState, encode_packets};
use crate::util::be16_val;

verus! {

/// One APDU command frame, constructed per call and consumed once.
pub struct ApduFrame {
    /// Class byte.
    pub class: u8,
    /// Instruction byte.
    pub instruction: u8,
    /// First parameter byte.
    pub param1: u8,
    /// Second parameter byte.
    pub param2: u8,
    /// Command data, at most 255 bytes.
    pub data: Vec<u8>,
}

impl ApduFrame {
    /// A frame's data must fit its one-byte length field.
    pub open spec fn wf(self) -> bool {
        self.data@.len() <= 255
    }

    /// The serialized form: header, length byte, data.
    pub open spec fn bytes(self) -> Seq<u8> {
        seq![self.class, self.instruction, self.param1, self.param2, self.data@.len() as u8]
            + self.data@
    }

    /// Serializes the frame header plus data.
    pub fn serialize(&self) -> (r: Vec<u8>)
        requires
            self.wf(),
        ensures
            r@ == self.bytes(),
    {
        let mut r: Vec<u8> = Vec::new();
        r.push(self.class);
        r.push(self.instruction);
        r.push(self.param1);
        r.push(self.param2);
        r.push(self.data.len() as u8);
        let mut i: usize = 0;
        while i < self.data.len()
            invariant
                i <= self.data@.len(),
                r@ == self.bytes().take(5 + i),
                self.wf(),
            decreases self.data@.len() - i,
        {
            r.push(self.data[i]);
            i += 1;
            proof {
                assert(r@ =~= self.bytes().take(5 + i));
            }
        }
        proof {
            assert(self.bytes().take(5 + i as int) =~= self.bytes());
        }
        r
    }

    /// Serializes the frame and splits it into packets for `channel`;
    /// reassembling the stream yields exactly the serialized frame.
    pub fn encode_command(&self, channel: u16) -> (r: Vec<Vec<u8>>)
        requires
            self.wf(),
        ensures
            AsmState::init(channel).run(r@.map_values(|p: Vec<u8>| p@)) == Ok::<Seq<u8>, Error>(
                self.bytes(),
            ),
    {
        let bytes = self.serialize();
        encode_packets(channel, &bytes)
    }
}

/// What parsing a raw reply yields: the data before the status word, or
/// the typed error for a missing or non-success status word.
pub open spec fn parse_response_spec(instruction: u8, raw: Seq<u8>) -> Result<Seq<u8>, Error> {
    if raw.len() < 2 {
        Err(Error::UnexpectedEof)
    } else {
        let status = be16_val(raw[raw.len() - 2], raw[raw.len() - 1]);
        if status != SW_OK {
            Err(Error::ResponseBadStatus { instruction, status })
        } else {
            Ok(raw.take(raw.len() - 2))
        }
    }
}

/// Splits a reassembled reply into data and status word, mapping a
/// non-success status to a status error that names the instruction.
pub fn parse_response(instruction: u8, raw: &Vec<u8>) -> (r: Result<Vec<u8>, Error>)
    ensures
        match r {
            Ok(d) => parse_response_spec(instruction, raw@) == Ok::<Seq<u8>, Error>(d@),
            Err(e) => parse_response_spec(instruction, raw@) == Err::<Seq<u8>, Error>(e),
        },
{
    let n = raw.len();
    if n < 2 {
        return Err(Error::UnexpectedEof);
    }
    let status = crate::util::read_be16(raw[n - 2], raw[n - 1]);
    if status != SW_OK {
        return Err(Error::ResponseBadStatus { instruction, status });
    }
    let mut data: Vec<u8> = Vec::new();
    let mut i: usize = 0;
    while i < n - 2
        invariant
            n == raw@.len(),
            n >= 2,
            i <= n - 2,
            data@ == raw@.take(i as int),
        decreases n - 2 - i,
    {
        data.push(raw[i]);
        i += 1;
        proof {
            assert(data@ =~= raw@.take(i as int));
        }
    }
    Ok(data)
}

/// Checks that a reply's data length lies in the range the instruction's
/// response shape requires; a mismatch names the expected range and the
/// actual length.
pub fn check_response_length(instruction: u8, data: &Vec<u8>, min_expected: usize,
    max_expected: usize) -> (r: Result<(), Error>)
    ensures
        r is Ok <==> min_expected <= data@.len() <= max_expected,
        r is Err ==> r == Err::<(), Error>(Error::ResponseWrongLength {
            instruction,
            min_expected,
            max_expected,
            found: data@.len() as usize,
        }),
{
    if data.len() < min_expected || data.len() > max_expected {
        Err(Error::ResponseWrongLength {
            instruction,
            min_expected,
            max_expected,
            found: data.len(),
        })
    } else {
        Ok(())
    }
}

/// The protocol-level failure categories a status word can denote.
#[derive(Debug, Clone, Copy, PartialEq, Eq, Structural)]
pub enum StatusKind {
    /// The success word.
    Success,
    /// Bad length field.
    BadLength,
    /// Invalid data.
    BadData,
    /// Bad P1 or P2 parameter.
    BadParams,
    /// Instruction not supported.
    InsNotSupported,
    /// The dongle is locked; the user can unlock it and retry.
    DongleLocked,
    /// Invalid-parameter exception.
    InvalidParameter,
    /// Halted exception.
    Halted,
    /// Any other non-success word.
    Other,
}

/// The failure category of a status word.
pub open spec fn status_kind_spec(status: u16) -> StatusKind {
    if status == SW_OK {
        StatusKind::Success
    } else if status == SW_BAD_LENGTH {
        StatusKind::BadLength
    } else if status == SW_BAD_DATA {
        StatusKind::BadData
    } else if status == SW_BAD_P1_OR_P2 {
        StatusKind::BadParams
    } else if status == SW_INS_NOT_SUPPORTED {
        StatusKind::InsNotSupported
    } else if status == SW_DONGLE_LOCKED {
        StatusKind::DongleLocked
    } else if status == SW_EXC_INVALID_PARAMETER {
        StatusKind::InvalidParameter
    } else if status == SW_EXC_HALTED {
        StatusKind::Halted
    } else {
        StatusKind::Other
    }
}

/// Classifies a status word into its failure category.
pub fn status_kind(status: u16) -> (r: StatusKind)
    ensures
        r == status_kind_spec(status),
{
    if status == SW_OK {
        StatusKind::Success
    } else if status == SW_BAD_LENGTH {
        StatusKind::BadLength
    } else if status == SW_BAD_DATA {
        StatusKind::BadData
    } else if status == SW_BAD_P1_OR_P2 {
        StatusKind::BadParams
    } else if status == SW_INS_NOT_SUPPORTED {
        StatusKind::InsNotSupported
    } else if status == SW_DONGLE_LOCKED {
        StatusKind::DongleLocked
    } else if status == SW_EXC_INVALID_PARAMETER {
        StatusKind::InvalidParameter
    } else if status == SW_EXC_HALTED {
        StatusKind::Halted
    } else {
        StatusKind::Other
    }
}

/// A reply carrying the dongle-locked status word surfaces, from any
/// instruction, as a status error whose word classifies as the locked
/// condition — never as a generic or other failure kind.
pub proof fn lemma_locked_is_distinguishable(instruction: u8, raw: Seq<u8>)
    requires
        raw.len() >= 2,
        be16_val(raw[raw.len() - 2], raw[raw.len() - 1]) == SW_DONGLE_LOCKED,
    ensures
        parse_response_spec(instruction, raw) matches Err(e)
            && e matches Error::ResponseBadStatus { status, instruction: ins }
            && status == SW_DONGLE_LOCKED && ins == instruction
            && status_kind_spec(status) == StatusKind::DongleLocked,
{
    assert(SW_DONGLE_LOCKED != SW_OK);
}

} // verus!
