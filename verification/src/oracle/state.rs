//! The feed account and the price it publishes.

use vstd::prelude::*;
use vstd::relations::sorted_by;
use crate::address::Pubkey;
use crate::bytes::{
    append_extends, append_key, append_le, byte_range, byte_ranges, extends, field_at, key_at,
    le_value_in_range, overwrite, read_32, read_le,
};
use crate::oracle::error::OracleError;
use crate::sorting::{ascending_u64, le_u64, sort_u64};

verus! {

/// How many prices a feed remembers.
pub const RING_LEN: usize = 30;

/// A feed that was not updated for more than this many slots is stale.
pub const STALE_SLOTS: u64 = 150;

/// The pools that a feed can read, numbered in order.
#[derive(Clone, Copy, Debug, PartialEq, Eq, Structural)]
pub enum SourceKind {
    /// A bonding curve: SOL reserves, then token reserves.
    PumpBonding,
    /// A PumpSwap pool: base reserve, then quote reserve.
    PumpSwap,
    /// A Raydium constant-product pool: base reserve, then quote reserve.
    RaydiumCpmm,
    /// A Meteora DLMM pool: active bin, bin step, price at bin 0.
    MeteoraDlmm,
}

impl SourceKind {
    /// The kind with this number.
    pub open spec fn of_number(v: u8) -> Option<SourceKind> {
        if v == 0 {
            Some(SourceKind::PumpBonding)
        } else if v == 1 {
            Some(SourceKind::PumpSwap)
        } else if v == 2 {
            Some(SourceKind::RaydiumCpmm)
        } else if v == 3 {
            Some(SourceKind::MeteoraDlmm)
        } else {
            None
        }
    }

    /// The kind with this number.
    pub fn from_u8(v: u8) -> (r: Option<SourceKind>)
        ensures
            r == SourceKind::of_number(v),
    {
        if v == 0 {
            Some(SourceKind::PumpBonding)
        } else if v == 1 {
            Some(SourceKind::PumpSwap)
        } else if v == 2 {
            Some(SourceKind::RaydiumCpmm)
        } else if v == 3 {
            Some(SourceKind::MeteoraDlmm)
        } else {
            None
        }
    }
}

/// A feed.
#[derive(Clone, Copy, Debug, PartialEq, Eq)]
pub struct Feed {
    /// The published price, in lamports per token. It stands first in the account,
    /// so that readers of the price need no more than eight bytes.
    pub price_lamports_per_token: u64,
    /// The slot in which the price was published.
    pub last_update_slot: u64,
    /// The token that is quoted.
    pub mint: Pubkey,
    /// The account that is read.
    pub source: Pubkey,
    /// A [`SourceKind`] by its number.
    pub source_kind: u8,
    /// Nonzero once the bonding curve is complete.
    pub graduated: u8,
    /// Nonzero once the feed is set up.
    pub initialized: u8,
    /// The entry of the ring that the next price overwrites.
    pub ring_idx: u8,
    pub _pad: [u8; 4],
    /// The most recent prices; zero stands for none.
    pub ring_buffer: [u64; RING_LEN],
}

/// `b` begins with the image of the feed.
pub open spec fn feed_at(b: Seq<u8>, f: Feed) -> bool {
    &&& b.len() >= Feed::LEN
    &&& field_at(b, 0, 8) == f.price_lamports_per_token
    &&& field_at(b, 8, 8) == f.last_update_slot
    &&& key_at(b, 16) == f.mint.bytes@
    &&& key_at(b, 48) == f.source.bytes@
    &&& b[80] == f.source_kind
    &&& b[81] == f.graduated
    &&& b[82] == f.initialized
    &&& b[83] == f.ring_idx
    &&& b[84] == f._pad@[0]
    &&& b[85] == f._pad@[1]
    &&& b[86] == f._pad@[2]
    &&& b[87] == f._pad@[3]
    &&& forall|i: int| 0 <= i < RING_LEN ==> field_at(b, 88 + 8 * i, 8) == #[trigger] f.ring_buffer@[i]
}

/// The feed at the beginning of `b`.
pub open spec fn feed_of(b: Seq<u8>) -> Feed {
    choose|f: Feed| feed_at(b, f)
}

/// A feed is determined by its image: reading gives back what was written.
pub proof fn feed_image_is_unique(b: Seq<u8>, f: Feed, g: Feed)
    requires
        feed_at(b, f),
        feed_at(b, g),
    ensures
        f == g,
{
    assert(f.mint.bytes =~= g.mint.bytes);
    assert(f.source.bytes =~= g.source.bytes);
    assert(f._pad =~= g._pad);
    assert(f.ring_buffer =~= g.ring_buffer) by {
        assert forall|i: int| 0 <= i < RING_LEN implies f.ring_buffer@[i] == g.ring_buffer@[i] by {}
    }
}

impl Feed {
    pub const LEN: usize = 328;

    /// The image of the feed.
    fn to_bytes(&self) -> (r: Vec<u8>)
        ensures
            r@.len() == Feed::LEN,
            feed_at(r@, *self),
    {
        proof {
            byte_ranges();
        }
        let mut out: Vec<u8> = Vec::new();
        append_le(&mut out, self.price_lamports_per_token as u128, 8);
        append_le(&mut out, self.last_update_slot as u128, 8);
        append_key(&mut out, &self.mint.bytes);
        append_key(&mut out, &self.source.bytes);
        let ghost b0 = out@;
        out.push(self.source_kind);
        out.push(self.graduated);
        out.push(self.initialized);
        out.push(self.ring_idx);
        out.push(self._pad[0]);
        out.push(self._pad[1]);
        out.push(self._pad[2]);
        out.push(self._pad[3]);
        proof {
            append_extends(b0, out@.subrange(80, 88));
            assert(out@ =~= b0 + out@.subrange(80, 88));
        }
        let ghost b1 = out@;
        let mut i: usize = 0;
        while i < RING_LEN
            invariant
                i <= RING_LEN,
                out@.len() == 88 + 8 * i,
                extends(b1, out@),
                b1.len() == 88,
                forall|j: int| 0 <= j < i ==> field_at(out@, 88 + 8 * j, 8) == #[trigger] self.ring_buffer@[j],
                byte_range(8) == u64::MAX + 1,
            decreases RING_LEN - i,
        {
            append_le(&mut out, self.ring_buffer[i] as u128, 8);
            i = i + 1;
        }
        out
    }

    /// Write the feed over the first `LEN` bytes; a shorter buffer is refused and
    /// left alone.
    pub fn write_into(&self, dst: &mut [u8]) -> (r: Result<(), OracleError>)
        ensures
            final(dst)@.len() == old(dst)@.len(),
            match r {
                Ok(_) => {
                    &&& feed_at(final(dst)@, *self)
                    &&& forall|j: int| Feed::LEN <= j < old(dst)@.len() ==> final(dst)@[j] == old(dst)@[j]
                },
                Err(e) => {
                    &&& e == OracleError::FeedSizeMismatch
                    &&& old(dst)@.len() < Feed::LEN
                    &&& final(dst)@ == old(dst)@
                },
            },
    {
        if dst.len() < Feed::LEN {
            return Err(OracleError::FeedSizeMismatch);
        }
        let bytes: Vec<u8> = self.to_bytes();
        let ghost was = dst@;
        overwrite(dst, bytes.as_slice());
        proof {
            append_extends(bytes@, was.subrange(Feed::LEN as int, was.len() as int));
        }
        Ok(())
    }

    /// Read a feed from the first `LEN` bytes; a shorter buffer is refused.
    pub fn read_from(src: &[u8]) -> (r: Result<Feed, OracleError>)
        ensures
            match r {
                Ok(f) => feed_at(src@, f) && f == feed_of(src@),
                Err(e) => e == OracleError::FeedSizeMismatch && src@.len() < Feed::LEN,
            },
    {
        if src.len() < Feed::LEN {
            return Err(OracleError::FeedSizeMismatch);
        }
        let mut ring_buffer: [u64; RING_LEN] = [0; RING_LEN];
        let mut i: usize = 0;
        while i < RING_LEN
            invariant
                i <= RING_LEN,
                src@.len() >= Feed::LEN,
                forall|j: int| 0 <= j < i ==> field_at(src@, 88 + 8 * j, 8) == #[trigger] ring_buffer@[j],
            decreases RING_LEN - i,
        {
            proof {
                le_value_in_range(src@.subrange(88 + 8 * i, 88 + 8 * i + 8));
                byte_ranges();
            }
            ring_buffer[i] = read_le(src, 88 + 8 * i, 8) as u64;
            i = i + 1;
        }
        proof {
            le_value_in_range(src@.subrange(0, 8));
            le_value_in_range(src@.subrange(8, 16));
            byte_ranges();
        }
        let pad: [u8; 4] = [src[84], src[85], src[86], src[87]];
        let f = Feed {
            price_lamports_per_token: read_le(src, 0, 8) as u64,
            last_update_slot: read_le(src, 8, 8) as u64,
            mint: Pubkey { bytes: read_32(src, 16) },
            source: Pubkey { bytes: read_32(src, 48) },
            source_kind: src[80],
            graduated: src[81],
            initialized: src[82],
            ring_idx: src[83],
            _pad: pad,
            ring_buffer,
        };
        proof {
            assert(feed_at(src@, f));
            feed_image_is_unique(src@, f, feed_of(src@));
        }
        Ok(f)
    }

    pub fn is_initialized(&self) -> (r: bool)
        ensures
            r == (self.initialized != 0),
    {
        self.initialized != 0
    }

    pub fn is_graduated(&self) -> (r: bool)
        ensures
            r == (self.graduated != 0),
    {
        self.graduated != 0
    }

    pub fn source_kind_enum(&self) -> (r: Option<SourceKind>)
        ensures
            r == SourceKind::of_number(self.source_kind),
    {
        SourceKind::from_u8(self.source_kind)
    }
}

/// The prices in a ring: its entries that are not zero.
pub open spec fn observations(ring: Seq<u64>) -> Seq<u64> {
    ring.filter(|v: u64| v != 0)
}

/// The median of a ring: the middle one of its prices in ascending order, the
/// lower one of the two in the middle where their number is even, and none where
/// there is no price.
pub open spec fn median_of(ring: Seq<u64>) -> Option<u64> {
    let s = ascending_u64(observations(ring));
    if s.len() == 0 {
        None
    } else {
        Some(s[(s.len() - 1) / 2])
    }
}

/// The median of the ring.
pub fn ring_median(ring: &[u64; RING_LEN]) -> (r: Option<u64>)
    ensures
        r == median_of(ring@),
{
    let ghost p = |v: u64| v != 0;
    let mut seen: Vec<u64> = Vec::new();
    let mut i: usize = 0;
    proof {
        assert(ring@.take(0).filter(p) =~= seen@);
    }
    while i < RING_LEN
        invariant
            i <= RING_LEN,
            p == (|v: u64| v != 0),
            seen@.len() <= i,
            seen@ == ring@.take(i as int).filter(p),
        decreases RING_LEN - i,
    {
        proof {
            assert(ring@.take(i + 1) =~= ring@.take(i as int).push(ring@[i as int]));
            ring@.take(i as int).lemma_filter_push(ring@[i as int], p);
        }
        if ring[i] != 0 {
            seen.push(ring[i]);
        }
        i = i + 1;
    }
    proof {
        assert(ring@.take(RING_LEN as int) =~= ring@);
        observations(ring@).lemma_sort_by_ensures(le_u64());
    }
    let sorted: Vec<u64> = sort_u64(&seen);
    let n: usize = sorted.len();
    if n == 0 {
        return None;
    }
    Some(sorted[(n - 1) / 2])
}

/// The median is one of the prices in the ring, and there is one exactly where
/// the ring holds a price. So it never leaves the range of the prices observed.
pub proof fn median_is_an_observation(ring: Seq<u64>)
    ensures
        match median_of(ring) {
            Some(m) => m != 0 && ring.contains(m),
            None => forall|i: int| 0 <= i < ring.len() ==> #[trigger] ring[i] == 0,
        },
{
    let p = |v: u64| v != 0;
    let o = observations(ring);
    let s = ascending_u64(o);
    o.lemma_sort_by_ensures(le_u64());
    o.to_multiset_ensures();
    s.to_multiset_ensures();
    if let Some(m) = median_of(ring) {
        assert(s.contains(m));
        assert(s.to_multiset().count(m) > 0);
        assert(o.contains(m));
        let k = choose|k: int| 0 <= k < o.len() && o[k] == m;
        ring.lemma_filter_pred(p, k);
        ring.lemma_filter_contains_rev(p, m);
    } else {
        assert(o.len() == 0) by {
            assert(o.to_multiset().len() == s.to_multiset().len());
        }
        assert forall|i: int| 0 <= i < ring.len() implies #[trigger] ring[i] == 0 by {
            if ring[i] != 0 {
                ring.lemma_filter_contains(p, i);
            }
        }
    }
}

} // verus!
