//! Account addresses, the accounts that an instruction is handed, and what is
//! taken from outside about them: addresses derived from seeds, and the packed
//! token account.

use vstd::prelude::*;
use crate::bytes::same_bytes;

verus! {

/// The address of an account.
#[derive(Clone, Copy, Debug, PartialEq, Eq)]
pub struct Pubkey {
    pub bytes: [u8; 32],
}

/// The token program.
pub const TOKEN_PROGRAM_ID: [u8; 32] = [
    6, 221, 246, 225, 215, 101, 161, 147, 217, 203, 225, 70, 206, 235, 121, 172, 28, 180, 133, 237, 95, 91, 55, 145, 58,
    140, 245, 133, 126, 255, 0, 169,
];

/// The system program: all zeros, which is also what an address that was never
/// written reads as.
pub const SYSTEM_PROGRAM_ID: [u8; 32] = [
    0, 0, 0, 0, 0, 0, 0, 0, 0, 0, 0, 0, 0, 0, 0, 0, 0, 0, 0, 0, 0, 0, 0, 0, 0, 0, 0, 0, 0, 0, 0, 0,
];

impl Pubkey {
    pub fn new_from_array(bytes: [u8; 32]) -> (r: Pubkey)
        ensures
            r.bytes == bytes,
    {
        Pubkey { bytes }
    }

    pub fn to_bytes(&self) -> (r: [u8; 32])
        ensures
            r == self.bytes,
    {
        self.bytes
    }

    /// Whether this is the address with these bytes.
    pub fn is(&self, bytes: &[u8; 32]) -> (r: bool)
        ensures
            r == (self.bytes == *bytes),
    {
        same_array(&self.bytes, bytes)
    }

    /// Whether two addresses are the same.
    pub fn same(&self, other: &Pubkey) -> (r: bool)
        ensures
            r == (*self == *other),
    {
        same_array(&self.bytes, &other.bytes)
    }
}

/// Whether two keys are the same.
pub fn same_array(a: &[u8; 32], b: &[u8; 32]) -> (r: bool)
    ensures
        r == (*a == *b),
{
    let r: bool = same_bytes(a, b);
    proof {
        if r {
            assert(*a =~= *b);
        }
    }
    r
}

/// An account as an instruction sees it.
#[derive(Clone, Debug, PartialEq, Eq)]
pub struct AccountView {
    pub key: Pubkey,
    pub owner: Pubkey,
    pub is_signer: bool,
    pub is_writable: bool,
    pub data: Vec<u8>,
}

/// Why an instruction failed.
#[derive(Clone, Copy, Debug, PartialEq, Eq)]
pub enum Failure<E> {
    /// Fewer accounts than the instruction takes.
    NotEnoughAccountKeys,
    /// An error of the program.
    Custom(E),
}

/// The address that the seeds and the program derive, where they derive one.
pub uninterp spec fn program_address(seeds: Seq<Seq<u8>>, program: Seq<u8>) -> Option<Seq<u8>>;

/// The address that a word, a key and a bump derive under a program.
pub open spec fn derived(word: Seq<u8>, key: Seq<u8>, bump: u8, program: Seq<u8>) -> Option<Seq<u8>> {
    program_address(seq![word, key, seq![bump]], program)
}

/// `solana_program::pubkey::Pubkey::create_program_address` with three seeds: it
/// hashes the seeds and the program, and fails where a seed is longer than
/// thirty-two bytes or the hash is a point of the curve. The claim is that the
/// outcome depends on the seeds and the program alone, and that an overlong seed
/// gives none.
#[verifier::external_body]
fn create_program_address(s0: &[u8], s1: &[u8], s2: &[u8], program: &[u8; 32]) -> (r: Option<[u8; 32]>)
    ensures
        program_address(seq![s0@, s1@, s2@], program@) == match r {
            Some(k) => Some(k@),
            None => None,
        },
        s0@.len() > 32 || s1@.len() > 32 || s2@.len() > 32 ==> r is None,
{
    let program = solana_program::pubkey::Pubkey::new_from_array(*program);
    match solana_program::pubkey::Pubkey::create_program_address(&[s0, s1, s2], &program) {
        Ok(k) => Some(k.to_bytes()),
        Err(_) => None,
    }
}

/// `solana_program::pubkey::Pubkey::try_find_program_address` with two seeds: it
/// appends a bump as third seed, from 255 down to 1, and gives the first address
/// that `create_program_address` derives together with its bump.
#[verifier::external_body]
fn try_find_program_address(s0: &[u8], s1: &[u8], program: &[u8; 32]) -> (r: Option<([u8; 32], u8)>)
    ensures
        match r {
            Some((k, bump)) => {
                &&& bump >= 1
                &&& derived(s0@, s1@, bump, program@) == Some(k@)
                &&& forall|b: u8| bump < b ==> #[trigger] derived(s0@, s1@, b, program@) is None
            },
            None => forall|b: u8| 1 <= b ==> #[trigger] derived(s0@, s1@, b, program@) is None,
        },
{
    let program = solana_program::pubkey::Pubkey::new_from_array(*program);
    match solana_program::pubkey::Pubkey::try_find_program_address(&[s0, s1], &program) {
        Some((k, bump)) => Some((k.to_bytes(), bump)),
        None => None,
    }
}

/// Derive the address of a word, a key and a bump.
pub fn derive_address(word: &[u8], key: &Pubkey, bump: u8, program: &Pubkey) -> (r: Option<Pubkey>)
    ensures
        match r {
            Some(k) => derived(word@, key.bytes@, bump, program.bytes@) == Some(k.bytes@),
            None => derived(word@, key.bytes@, bump, program.bytes@) is None,
        },
{
    let seed: [u8; 1] = [bump];
    assert(seed@ =~= seq![bump]);
    match create_program_address(word, &key.bytes, &seed, &program.bytes) {
        Some(bytes) => Some(Pubkey { bytes }),
        None => None,
    }
}

/// The highest bump under which a word and a key derive an address, and that
/// address.
pub fn find_address(word: &[u8], key: &Pubkey, program: &Pubkey) -> (r: Option<(Pubkey, u8)>)
    ensures
        match r {
            Some((k, bump)) => {
                &&& bump >= 1
                &&& derived(word@, key.bytes@, bump, program.bytes@) == Some(k.bytes@)
                &&& forall|b: u8| bump < b ==> #[trigger] derived(word@, key.bytes@, b, program.bytes@) is None
            },
            None => forall|b: u8| 1 <= b ==> #[trigger] derived(word@, key.bytes@, b, program.bytes@) is None,
        },
{
    match try_find_program_address(word, &key.bytes, &program.bytes) {
        Some((bytes, bump)) => Some((Pubkey { bytes }, bump)),
        None => None,
    }
}

/// The mint and the authority of a token account.
#[derive(Clone, Copy, Debug, PartialEq, Eq)]
pub struct TokenAccount {
    pub mint: Pubkey,
    pub owner: Pubkey,
}

/// The tag of an optional field at `at`: absent or present.
pub open spec fn option_tag(b: Seq<u8>, at: int) -> bool {
    &&& b[at] <= 1
    &&& b[at + 1] == 0
    &&& b[at + 2] == 0
    &&& b[at + 3] == 0
}

/// The bytes of an initialized token account: the tags of its three optional
/// fields (delegate, native reserve, close authority) are proper, and its state
/// is initialized or frozen.
pub open spec fn is_token_account(b: Seq<u8>) -> bool {
    &&& b.len() == 165
    &&& option_tag(b, 72)
    &&& option_tag(b, 109)
    &&& option_tag(b, 129)
    &&& b[108] == 1 || b[108] == 2
}

/// `spl_token::state::Account::unpack`, of which the mint and the owner are kept.
/// It succeeds on the 165 bytes of an initialized account alone; the mint stands
/// in the first thirty-two bytes and the owner in the next.
#[verifier::external_body]
pub(crate) fn unpack_token_account(data: &[u8]) -> (r: Option<TokenAccount>)
    ensures
        match r {
            Some(t) => {
                &&& is_token_account(data@)
                &&& t.mint.bytes@ == data@.subrange(0, 32)
                &&& t.owner.bytes@ == data@.subrange(32, 64)
            },
            None => !is_token_account(data@),
        },
{
    match <spl_token::state::Account as solana_program::program_pack::Pack>::unpack(data) {
        Ok(t) => Some(TokenAccount {
                mint: Pubkey { bytes: t.mint.to_bytes() },
                owner: Pubkey { bytes: t.owner.to_bytes() },
        }),
        Err(_) => None,
    }
}

} // verus!
