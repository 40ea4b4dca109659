//! The slab account: a header, then the image of the engine.

use vstd::prelude::*;
use crate::address::{derived, find_address, Pubkey};
use crate::bytes::{overwrite, push_slice, read_32};
use crate::layout::ENGINE_SIZE;
use crate::program::error::PercolatorError;

verus! {

/// The header of a slab.
#[derive(Clone, Copy, Debug, PartialEq, Eq)]
pub struct SlabHeader {
    /// The mint that the slab tracks.
    pub mint: Pubkey,
    /// The account that prices come from.
    pub oracle: Pubkey,
    /// Who paid for the slab and may administer it.
    pub creator: Pubkey,
    /// Bump of the slab's own address, 0 where it is not a derived one.
    pub bump: u8,
    /// Nonzero once the engine is in place.
    pub initialized: u8,
    /// Bump of the vault's address.
    pub vault_bump: u8,
    /// `ORIGIN_SEEDED` or `ORIGIN_OPEN`.
    pub origin: u8,
    pub _pad: [u8; 4],
}

/// The word under which a slab's vault address is derived: `vault`.
pub const VAULT_SEED: [u8; 5] = [118, 97, 117, 108, 116];

/// Created by the administrator.
pub const ORIGIN_SEEDED: u8 = 0;

/// Created through a paid listing.
pub const ORIGIN_OPEN: u8 = 1;

/// Where the engine stands in a slab.
pub const ENGINE_OFFSET: usize = 104;

/// The bytes of a header.
pub open spec fn header_bytes(h: SlabHeader) -> Seq<u8> {
    h.mint.bytes@ + h.oracle.bytes@ + h.creator.bytes@ + seq![h.bump, h.initialized, h.vault_bump, h.origin] + h._pad@
}

/// The header that stands at the beginning of `b`.
pub open spec fn header_of(b: Seq<u8>) -> SlabHeader {
    choose|h: SlabHeader| header_bytes(h) == b.subrange(0, SlabHeader::LEN as int)
}

/// The header of a new slab.
pub open spec fn is_new_header(
    h: SlabHeader,
    mint: Pubkey,
    oracle: Pubkey,
    creator: Pubkey,
    bump: u8,
    vault_bump: u8,
    origin: u8,
) -> bool {
    &&& h.mint == mint
    &&& h.oracle == oracle
    &&& h.creator == creator
    &&& h.bump == bump
    &&& h.initialized == 0
    &&& h.vault_bump == vault_bump
    &&& h.origin == origin
    &&& h._pad@ == seq![0u8, 0u8, 0u8, 0u8]
}

/// A header takes `SlabHeader::LEN` bytes and is determined by them: reading
/// gives back what was written.
pub proof fn header_image_is_unique(g: SlabHeader, h: SlabHeader)
    ensures
        header_bytes(h).len() == SlabHeader::LEN,
        header_bytes(g) == header_bytes(h) ==> g == h,
{
    if header_bytes(g) == header_bytes(h) {
        let b = header_bytes(g);
        assert(b.subrange(0, 32) =~= g.mint.bytes@);
        assert(b.subrange(32, 64) =~= g.oracle.bytes@);
        assert(b.subrange(64, 96) =~= g.creator.bytes@);
        assert(b.subrange(100, 104) =~= g._pad@);
        assert(b[96] == g.bump && b[97] == g.initialized && b[98] == g.vault_bump && b[99] == g.origin);
        assert(b.subrange(0, 32) =~= h.mint.bytes@);
        assert(b.subrange(32, 64) =~= h.oracle.bytes@);
        assert(b.subrange(64, 96) =~= h.creator.bytes@);
        assert(b.subrange(100, 104) =~= h._pad@);
        assert(b[96] == h.bump && b[97] == h.initialized && b[98] == h.vault_bump && b[99] == h.origin);
        assert(g.mint.bytes =~= h.mint.bytes);
        assert(g.oracle.bytes =~= h.oracle.bytes);
        assert(g.creator.bytes =~= h.creator.bytes);
        assert(g._pad =~= h._pad);
    }
}

impl SlabHeader {
    pub const LEN: usize = 104;

    /// A header without an engine, of an administrator's slab.
    pub fn new(mint: Pubkey, oracle: Pubkey, creator: Pubkey, bump: u8, vault_bump: u8) -> (r: SlabHeader)
        ensures
            is_new_header(r, mint, oracle, creator, bump, vault_bump, ORIGIN_SEEDED),
    {
        let pad: [u8; 4] = [0, 0, 0, 0];
        assert(pad@ =~= seq![0u8, 0u8, 0u8, 0u8]);
        SlabHeader { mint, oracle, creator, bump, initialized: 0, vault_bump, origin: ORIGIN_SEEDED, _pad: pad }
    }

    /// The bytes of the header.
    pub fn to_bytes(&self) -> (r: Vec<u8>)
        ensures
            r@ == header_bytes(*self),
            r@.len() == SlabHeader::LEN,
    {
        let mut out: Vec<u8> = Vec::new();
        push_slice(&mut out, &self.mint.bytes);
        push_slice(&mut out, &self.oracle.bytes);
        push_slice(&mut out, &self.creator.bytes);
        out.push(self.bump);
        out.push(self.initialized);
        out.push(self.vault_bump);
        out.push(self.origin);
        push_slice(&mut out, &self._pad);
        proof {
            assert(out@ =~= header_bytes(*self));
        }
        out
    }

    /// Write the header over the first `LEN` bytes; a shorter buffer is refused and
    /// left alone.
    pub fn write_into(&self, dst: &mut [u8]) -> (r: Result<(), PercolatorError>)
        ensures
            final(dst)@.len() == old(dst)@.len(),
            match r {
                Ok(_) => {
                    &&& old(dst)@.len() >= SlabHeader::LEN
                    &&& final(dst)@ == header_bytes(*self) + old(dst)@.subrange(SlabHeader::LEN as int, old(dst)@.len() as int)
                },
                Err(e) => {
                    &&& e == PercolatorError::SlabSizeMismatch
                    &&& old(dst)@.len() < SlabHeader::LEN
                    &&& final(dst)@ == old(dst)@
                },
            },
    {
        if dst.len() < SlabHeader::LEN {
            return Err(PercolatorError::SlabSizeMismatch);
        }
        let bytes: Vec<u8> = self.to_bytes();
        overwrite(dst, bytes.as_slice());
        Ok(())
    }

    /// Read a header from the first `LEN` bytes; a shorter buffer is refused.
    pub fn read_from(src: &[u8]) -> (r: Result<SlabHeader, PercolatorError>)
        ensures
            match r {
                Ok(h) => {
                    &&& src@.len() >= SlabHeader::LEN
                    &&& header_bytes(h) == src@.subrange(0, SlabHeader::LEN as int)
                    &&& h == header_of(src@)
                },
                Err(e) => e == PercolatorError::SlabSizeMismatch && src@.len() < SlabHeader::LEN,
            },
    {
        if src.len() < SlabHeader::LEN {
            return Err(PercolatorError::SlabSizeMismatch);
        }
        let pad: [u8; 4] = [src[100], src[101], src[102], src[103]];
        let h = SlabHeader {
            mint: Pubkey { bytes: read_32(src, 0) },
            oracle: Pubkey { bytes: read_32(src, 32) },
            creator: Pubkey { bytes: read_32(src, 64) },
            bump: src[96],
            initialized: src[97],
            vault_bump: src[98],
            origin: src[99],
            _pad: pad,
        };
        proof {
            assert(pad@ =~= src@.subrange(100, 104));
            assert(header_bytes(h) =~= src@.subrange(0, SlabHeader::LEN as int));
            header_image_is_unique(h, header_of(src@));
        }
        Ok(h)
    }

    /// Whether the engine is in place.
    pub fn is_initialized(&self) -> (r: bool)
        ensures
            r == (self.initialized != 0),
    {
        self.initialized != 0
    }
}

/// The vault address of a slab under a bump.
pub open spec fn vault_address(slab: Pubkey, bump: u8, program: Pubkey) -> Option<Seq<u8>> {
    derived(VAULT_SEED@, slab.bytes@, bump, program.bytes@)
}

/// `address` is the vault of the slab: derived under the highest bump that
/// derives one.
pub open spec fn is_vault(slab: Pubkey, program: Pubkey, address: Pubkey, bump: u8) -> bool {
    &&& bump >= 1
    &&& vault_address(slab, bump, program) == Some(address.bytes@)
    &&& forall|b: u8| bump < b ==> #[trigger] vault_address(slab, b, program) is None
}

/// The vault of a slab, for a slab that has one.
pub fn find_vault_pda(slab: &Pubkey, program_id: &Pubkey) -> (r: (Pubkey, u8))
    requires
        exists|b: u8| b >= 1 && #[trigger] vault_address(*slab, b, *program_id) is Some,
    ensures
        is_vault(*slab, *program_id, r.0, r.1),
{
    let found = find_address(&VAULT_SEED, slab, program_id);
    proof {
        assert forall|b: u8| vault_address(*slab, b, *program_id) == derived(
            VAULT_SEED@,
            slab.bytes@,
            b,
            program_id.bytes@,
        ) by {}
    }
    match found {
        Some(r) => r,
        None => {
            assert(false);
            (*slab, 0)
        },
    }
}

/// The vault of a slab, or none where no bump derives an address.
pub fn try_find_vault_pda(slab: &Pubkey, program_id: &Pubkey) -> (r: Option<(Pubkey, u8)>)
    ensures
        match r {
            Some((address, bump)) => is_vault(*slab, *program_id, address, bump),
            None => forall|b: u8| 1 <= b ==> #[trigger] vault_address(*slab, b, *program_id) is None,
        },
{
    match find_address(&VAULT_SEED, slab, program_id) {
        Some((_, bump)) => {
            assert(vault_address(*slab, bump, *program_id) is Some);
            Some(find_vault_pda(slab, program_id))
        },
        None => {
            proof {
                assert forall|b: u8| 1 <= b implies #[trigger] vault_address(*slab, b, *program_id) is None by {
                    assert(derived(VAULT_SEED@, slab.bytes@, b, program_id.bytes@) is None);
                }
            }
            None
        },
    }
}

/// Size of a slab account.
pub fn slab_account_size() -> (r: usize)
    ensures
        r == SlabHeader::LEN + ENGINE_SIZE,
{
    SlabHeader::LEN + ENGINE_SIZE
}

/// Size of the engine in it.
pub fn engine_region_size() -> (r: usize)
    ensures
        r == ENGINE_SIZE,
{
    ENGINE_SIZE
}

} // verus!
