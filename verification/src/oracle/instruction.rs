//! The wire format of the oracle's instructions: a tag byte, then the fields in
//! order.

use vstd::prelude::*;
use crate::address::Pubkey;
use crate::bytes::{append_extends, append_key, key_at, read_32};
use crate::oracle::error::OracleError;

verus! {

/// The tags, numbered in order.
#[derive(Clone, Copy, Debug, PartialEq, Eq, Structural)]
pub enum InstructionTag {
    InitializeFeed,
    Update,
    Graduate,
    ConvertSource,
}

#[derive(Clone, Copy, Debug, PartialEq, Eq)]
pub struct InitializeFeedArgs {
    pub mint: [u8; 32],
    pub source: [u8; 32],
    /// A source kind by its number.
    pub source_kind: u8,
}

#[derive(Clone, Copy, Debug, PartialEq, Eq)]
pub struct ConvertSourceArgs {
    /// The new source kind by its number.
    pub new_kind: u8,
    pub new_source: [u8; 32],
}

#[derive(Clone, Copy, Debug, PartialEq, Eq)]
pub enum OracleInstruction {
    /// Set up a feed.
    InitializeFeed(InitializeFeedArgs),
    /// Read the source and publish the median.
    Update,
    /// Record that the bonding curve is complete.
    Graduate,
    /// Point a graduated feed at another source.
    ConvertSource(ConvertSourceArgs),
}

/// `b` is taken for the instruction. Where there are fields, nothing may follow
/// them; where there are none, what follows the tag does not matter.
pub open spec fn wire_form(b: Seq<u8>, ix: OracleInstruction) -> bool {
    &&& b.len() >= 1
    &&& match ix {
        OracleInstruction::InitializeFeed(a) => {
            &&& b[0] == 0
            &&& b.len() == 66
            &&& key_at(b, 1) == a.mint@
            &&& key_at(b, 33) == a.source@
            &&& b[65] == a.source_kind
        },
        OracleInstruction::Update => b[0] == 1,
        OracleInstruction::Graduate => b[0] == 2,
        OracleInstruction::ConvertSource(a) => {
            &&& b[0] == 3
            &&& b.len() == 34
            &&& b[1] == a.new_kind
            &&& key_at(b, 2) == a.new_source@
        },
    }
}

/// The length that an instruction is packed to.
pub open spec fn packed_len(ix: OracleInstruction) -> int {
    match ix {
        OracleInstruction::InitializeFeed(_) => 66,
        OracleInstruction::Update => 1,
        OracleInstruction::Graduate => 1,
        OracleInstruction::ConvertSource(_) => 34,
    }
}

/// Bytes are taken for at most one instruction: unpacking gives back what was
/// packed.
pub proof fn wire_form_is_unambiguous(b: Seq<u8>, x: OracleInstruction, y: OracleInstruction)
    requires
        wire_form(b, x),
        wire_form(b, y),
    ensures
        x == y,
{
    match (x, y) {
        (OracleInstruction::InitializeFeed(a), OracleInstruction::InitializeFeed(c)) => {
            assert(a.mint =~= c.mint);
            assert(a.source =~= c.source);
        },
        (OracleInstruction::ConvertSource(a), OracleInstruction::ConvertSource(c)) => {
            assert(a.new_source =~= c.new_source);
        },
        _ => {},
    }
}

impl OracleInstruction {
    /// Decode an instruction. Bytes that stand for none are refused.
    pub fn unpack(input: &[u8]) -> (r: Result<OracleInstruction, OracleError>)
        ensures
            match r {
                Ok(ix) => wire_form(input@, ix),
                Err(e) => e == OracleError::InvalidInstructionData && forall|ix: OracleInstruction| !wire_form(input@, ix),
            },
    {
        let bad = Err(OracleError::InvalidInstructionData);
        if input.len() == 0 {
            return bad;
        }
        let tag: u8 = input[0];
        let len: usize = input.len();
        if tag == 0 && len == 66 {
            Ok(
                OracleInstruction::InitializeFeed(
                    InitializeFeedArgs { mint: read_32(input, 1), source: read_32(input, 33), source_kind: input[65] },
                ),
            )
        } else if tag == 1 {
            Ok(OracleInstruction::Update)
        } else if tag == 2 {
            Ok(OracleInstruction::Graduate)
        } else if tag == 3 && len == 34 {
            Ok(OracleInstruction::ConvertSource(ConvertSourceArgs {
                new_kind: input[1],
                new_source: read_32(input, 2),
            }))
        } else {
            bad
        }
    }

    /// Encode the instruction.
    pub fn pack(&self) -> (r: Vec<u8>)
        ensures
            wire_form(r@, *self),
            r@.len() == packed_len(*self),
    {
        let mut out: Vec<u8> = Vec::new();
        match self {
            OracleInstruction::InitializeFeed(a) => {
                out.push(0);
                append_key(&mut out, &a.mint);
                append_key(&mut out, &a.source);
                let ghost b = out@;
                out.push(a.source_kind);
                proof {
                    append_extends(b, seq![a.source_kind]);
                    assert(out@ =~= b + seq![a.source_kind]);
                }
            },
            OracleInstruction::Update => {
                out.push(1);
            },
            OracleInstruction::Graduate => {
                out.push(2);
            },
            OracleInstruction::ConvertSource(a) => {
                out.push(3);
                out.push(a.new_kind);
                append_key(&mut out, &a.new_source);
            },
        }
        out
    }
}

/// The bytes of an address.
pub fn pk_bytes(p: &Pubkey) -> (r: [u8; 32])
    ensures
        r == p.bytes,
{
    p.to_bytes()
}

} // verus!
