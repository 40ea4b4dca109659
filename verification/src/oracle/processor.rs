//! The oracle's instructions: reading a price from a pool, and keeping the feed.

use vstd::prelude::*;
use crate::address::{same_array, AccountView, Failure, Pubkey};
use crate::bytes::{byte_ranges, copy_of, field_at, le_value_in_range, read_le};
use crate::constants::POS_SCALE;
use crate::oracle::error::OracleError;
use crate::oracle::instruction::{
    wire_form, wire_form_is_unambiguous, ConvertSourceArgs, InitializeFeedArgs,
    OracleInstruction,
};
use crate::oracle::state::{
    RING_LEN, feed_at, feed_image_is_unique, feed_of, median_is_an_observation, median_of,
    ring_median, Feed, SourceKind,
};
use crate::wide_math::min_of;

verus! {

/// Where a bonding curve says that it is complete.
pub const COMPLETE_OFFSET: usize = 0xA6;

/// The most bins that a bin price is carried over.
pub const MAX_BIN_STEPS: u32 = 10_000;

/// The signed value of a 32-bit number.
pub open spec fn signed_32(v: int) -> int {
    if v >= 0x8000_0000 {
        v - 0x1_0000_0000
    } else {
        v
    }
}

/// The price of a constant-product pool: `num` per `den`, in units of
/// `POS_SCALE`, and the largest price where it is larger than that.
pub open spec fn pool_price(num: u64, den: u64) -> Result<u64, OracleError> {
    if den == 0 {
        Err(OracleError::StaleSource)
    } else {
        Ok(min_of(num * POS_SCALE / (den as int), u64::MAX as int) as u64)
    }
}

/// The price of a pool with two reserves at 0x08 and 0x10; `inverted` where the
/// price is the first per the second. An empty pool has none.
pub open spec fn reserves_price(data: Seq<u8>, inverted: bool) -> Result<u64, OracleError> {
    if data.len() < 0x18 || field_at(data, 0x08, 8) == 0 || field_at(data, 0x10, 8) == 0 {
        Err(OracleError::StaleSource)
    } else if inverted {
        pool_price(field_at(data, 0x08, 8) as u64, field_at(data, 0x10, 8) as u64)
    } else {
        pool_price(field_at(data, 0x10, 8) as u64, field_at(data, 0x08, 8) as u64)
    }
}

/// `price` carried over `steps` bins, each of which multiplies it by `num / den`
/// and rounds down. A product that leaves 128 bits is an error; a price of zero
/// stays zero.
pub open spec fn over_bins(price: int, steps: nat, num: int, den: int) -> Result<int, OracleError>
    decreases steps,
{
    if steps == 0 || price == 0 {
        Ok(price)
    } else if price * num > u128::MAX {
        Err(OracleError::Overflow)
    } else {
        over_bins(price * num / den, (steps - 1) as nat, num, den)
    }
}

/// The price of a bin pool: the price at bin 0, multiplied by one plus the bin
/// step for each bin up to the active one, or divided by it for each bin down.
pub open spec fn bin_price(data: Seq<u8>) -> Result<u64, OracleError> {
    if data.len() < 0x16 {
        Err(OracleError::StaleSource)
    } else {
        let bin = signed_32(field_at(data, 0x08, 4));
        let step = field_at(data, 0x0C, 2);
        let base = field_at(data, 0x0E, 8);
        if !(base != 0 && 0 < step <= 10_000) {
            Err(OracleError::StaleSource)
        } else {
            let up = bin >= 0;
            let steps = min_of(
                if up {
                    bin
                } else {
                    -bin
                },
                MAX_BIN_STEPS as int,
            ) as nat;
            match if up {
                over_bins(base, steps, 10_000 + step, 10_000)
            } else {
                over_bins(base, steps, 10_000, 10_000 + step)
            } {
                Err(e) => Err(e),
                Ok(price) => {
                    if price > u64::MAX {
                        Err(OracleError::Overflow)
                    } else {
                        Ok(price as u64)
                    }
                },
            }
        }
    }
}

/// The price that a source account of a kind shows.
pub open spec fn source_price(kind: SourceKind, data: Seq<u8>) -> Result<u64, OracleError> {
    match kind {
        SourceKind::PumpBonding => reserves_price(data, true),
        SourceKind::PumpSwap => reserves_price(data, false),
        SourceKind::RaydiumCpmm => reserves_price(data, false),
        SourceKind::MeteoraDlmm => bin_price(data),
    }
}

/// The price of a source that is not stale: a price of zero does not count.
pub open spec fn live_price(kind: SourceKind, data: Seq<u8>) -> Result<u64, OracleError> {
    match source_price(kind, data) {
        Err(e) => Err(e),
        Ok(p) => {
            if p == 0 {
                Err(OracleError::StaleSource)
            } else {
                Ok(p)
            }
        },
    }
}

/// A ring that holds one price only.
pub open spec fn ring_of(price: u64) -> Seq<u64> {
    Seq::new(RING_LEN as nat, |i: int| 0u64).update(0, price)
}

/// `f` after `price` was seen in slot `now`: the price takes the place of the
/// oldest one, and the median is published.
pub open spec fn is_updated(f: Feed, g: Feed, price: u64, now: u64) -> bool {
    &&& g.ring_buffer@ == f.ring_buffer@.update(f.ring_idx as int, price)
    &&& g.ring_idx == (f.ring_idx + 1) % (RING_LEN as int)
    &&& median_of(g.ring_buffer@) == Some(g.price_lamports_per_token)
    &&& g.last_update_slot == now
    &&& g.mint == f.mint
    &&& g.source == f.source
    &&& g.source_kind == f.source_kind
    &&& g.graduated == f.graduated
    &&& g.initialized == f.initialized
    &&& g._pad == f._pad
}

/// A feed that starts over with `price`, seen in slot `now`.
pub open spec fn starts_over(g: Feed, price: u64, now: u64) -> bool {
    &&& g.ring_buffer@ == ring_of(price)
    &&& g.ring_idx == 1
    &&& g.price_lamports_per_token == price
    &&& g.last_update_slot == now
}

/// A feed as it is set up.
pub open spec fn is_set_up(g: Feed, a: InitializeFeedArgs, price: u64, now: u64) -> bool {
    &&& starts_over(g, price, now)
    &&& g.mint.bytes == a.mint
    &&& g.source.bytes == a.source
    &&& g.source_kind == a.source_kind
    &&& g.graduated == 0
    &&& g.initialized == 1
    &&& g._pad@ == seq![0u8, 0u8, 0u8, 0u8]
}

/// A feed after it was pointed at another source.
pub open spec fn is_converted(f: Feed, g: Feed, a: ConvertSourceArgs, price: u64, now: u64) -> bool {
    &&& starts_over(g, price, now)
    &&& g.source.bytes == a.new_source
    &&& g.source_kind == a.new_kind
    &&& g.mint == f.mint
    &&& g.graduated == f.graduated
    &&& g.initialized == f.initialized
    &&& g._pad == f._pad
}

/// What every instruction asks of the feed account.
pub open spec fn feed_account_ok(program: Pubkey, feed: AccountView) -> Result<(), OracleError> {
    if !feed.is_writable {
        Err(OracleError::AccountNotWritable)
    } else if feed.owner != program {
        Err(OracleError::FeedSizeMismatch)
    } else {
        Ok(())
    }
}

/// The price with which a feed is set up, or why it cannot be.
pub open spec fn initialize_checked(
    program: Pubkey,
    feed: AccountView,
    source: AccountView,
    a: InitializeFeedArgs,
) -> Result<u64, OracleError> {
    match feed_account_ok(program, feed) {
        Err(e) => Err(e),
        Ok(_) => {
            if feed.data@.len() < Feed::LEN {
                Err(OracleError::FeedSizeMismatch)
            } else {
                match SourceKind::of_number(a.source_kind) {
                    None => Err(OracleError::InvalidSourceKind),
                    Some(kind) => {
                        if source.key.bytes != a.source {
                            Err(OracleError::WrongSourceAccount)
                        } else if feed_of(feed.data@).initialized != 0 {
                            Err(OracleError::FeedAlreadyInitialized)
                        } else {
                            live_price(kind, source.data@)
                        }
                    },
                }
            }
        },
    }
}

/// The price that an update adds, or why there is none.
pub open spec fn update_checked(program: Pubkey, feed: AccountView, source: AccountView) -> Result<u64, OracleError> {
    match feed_account_ok(program, feed) {
        Err(e) => Err(e),
        Ok(_) => {
            if feed.data@.len() < Feed::LEN {
                Err(OracleError::FeedSizeMismatch)
            } else {
                let f = feed_of(feed.data@);
                if f.initialized == 0 {
                    Err(OracleError::FeedNotInitialized)
                } else if f.source != source.key {
                    Err(OracleError::WrongSourceAccount)
                } else {
                    match SourceKind::of_number(f.source_kind) {
                        None => Err(OracleError::InvalidSourceKind),
                        Some(kind) => {
                            if kind == SourceKind::PumpBonding && f.graduated != 0 {
                                Err(OracleError::AlreadyGraduated)
                            } else {
                                live_price(kind, source.data@)
                            }
                        },
                    }
                }
            }
        },
    }
}

/// Whether a feed can graduate, or why not.
pub open spec fn graduate_checked(program: Pubkey, feed: AccountView, source: AccountView) -> Result<(), OracleError> {
    match feed_account_ok(program, feed) {
        Err(e) => Err(e),
        Ok(_) => {
            let f = feed_of(feed.data@);
            if f.initialized == 0 {
                Err(OracleError::FeedNotInitialized)
            } else if f.source != source.key {
                Err(OracleError::WrongSourceAccount)
            } else if f.graduated != 0 {
                Err(OracleError::AlreadyGraduated)
            } else if SourceKind::of_number(f.source_kind) != Some(SourceKind::PumpBonding) {
                Err(OracleError::InvalidSourceKind)
            } else if source.data@.len() <= COMPLETE_OFFSET {
                Err(OracleError::StaleSource)
            } else if source.data@[COMPLETE_OFFSET as int] == 0 {
                Err(OracleError::NotGraduated)
            } else {
                Ok(())
            }
        },
    }
}

/// The price with which a feed starts over on a new source, or why it cannot.
pub open spec fn convert_checked(
    program: Pubkey,
    feed: AccountView,
    source: AccountView,
    a: ConvertSourceArgs,
) -> Result<u64, OracleError> {
    match feed_account_ok(program, feed) {
        Err(e) => Err(e),
        Ok(_) => match SourceKind::of_number(a.new_kind) {
            None => Err(OracleError::InvalidSourceKind),
            Some(kind) => {
                if source.key.bytes != a.new_source {
                    Err(OracleError::WrongSourceAccount)
                } else {
                    let f = feed_of(feed.data@);
                    if f.initialized == 0 {
                        Err(OracleError::FeedNotInitialized)
                    } else if f.graduated == 0 {
                        Err(OracleError::ConvertRequiresGraduation)
                    } else {
                        live_price(kind, source.data@)
                    }
                }
            },
        },
    }
}

/// The feed account's data after it was rewritten: the feed at the beginning, the
/// rest as it was.
pub open spec fn rewritten(was: Seq<u8>, now: Seq<u8>, g: Feed) -> bool {
    &&& now.len() == was.len()
    &&& feed_at(now, g)
    &&& forall|j: int| Feed::LEN <= j < was.len() ==> now[j] == was[j]
}

fn get_u64(data: &[u8], off: usize) -> (r: u64)
    requires
        off + 8 <= data@.len(),
    ensures
        r == field_at(data@, off as int, 8),
{
    proof {
        le_value_in_range(data@.subrange(off as int, off + 8));
        byte_ranges();
    }
    read_le(data, off, 8) as u64
}

/// The price of a constant-product pool.
pub fn amm_price(numerator: u64, denominator: u64) -> (r: Result<u64, OracleError>)
    ensures
        r == pool_price(numerator, denominator),
{
    if denominator == 0 {
        return Err(OracleError::StaleSource);
    }
    assert(numerator * POS_SCALE <= u64::MAX * POS_SCALE) by (nonlinear_arith)
        requires
            numerator <= u64::MAX,
            POS_SCALE == 1_000_000,
        ;
    let price: u128 = numerator as u128 * POS_SCALE / denominator as u128;
    if price > u64::MAX as u128 {
        Ok(u64::MAX)
    } else {
        Ok(price as u64)
    }
}

fn read_reserves(data: &[u8], inverted: bool) -> (r: Result<u64, OracleError>)
    ensures
        r == reserves_price(data@, inverted),
{
    if data.len() < 0x18 {
        return Err(OracleError::StaleSource);
    }
    let first: u64 = get_u64(data, 0x08);
    let second: u64 = get_u64(data, 0x10);
    if first == 0 || second == 0 {
        return Err(OracleError::StaleSource);
    }
    if inverted {
        amm_price(first, second)
    } else {
        amm_price(second, first)
    }
}

/// The price that a bonding curve shows.
pub fn read_pump_bonding(data: &[u8]) -> (r: Result<u64, OracleError>)
    ensures
        r == source_price(SourceKind::PumpBonding, data@),
{
    read_reserves(data, true)
}

/// The price that a PumpSwap pool shows.
pub fn read_pumpswap(data: &[u8]) -> (r: Result<u64, OracleError>)
    ensures
        r == source_price(SourceKind::PumpSwap, data@),
{
    read_reserves(data, false)
}

/// The price that a Raydium pool shows.
pub fn read_raydium_cpmm(data: &[u8]) -> (r: Result<u64, OracleError>)
    ensures
        r == source_price(SourceKind::RaydiumCpmm, data@),
{
    read_reserves(data, false)
}

/// Carry a price over bins.
fn carry(base: u64, steps: u32, num: u128, den: u128) -> (r: Result<u128, OracleError>)
    requires
        0 < den,
    ensures
        match r {
            Ok(p) => over_bins(base as int, steps as nat, num as int, den as int) == Ok::<int, OracleError>(p as int),
            Err(e) => over_bins(base as int, steps as nat, num as int, den as int) == Err::<int, OracleError>(e),
        },
{
    let mut price: u128 = base as u128;
    let mut k: u32 = 0;
    while k < steps
        invariant
            k <= steps,
            0 < den,
            over_bins(base as int, steps as nat, num as int, den as int) == over_bins(
                price as int,
                (steps - k) as nat,
                num as int,
                den as int,
            ),
        decreases steps - k,
    {
        if price == 0 {
            return Ok(0);
        }
        let product: u128 = price.checked_mul(num).ok_or(OracleError::Overflow)?;
        price = product / den;
        k = k + 1;
    }
    Ok(price)
}

/// The price that a bin pool shows.
pub fn read_meteora_dlmm(data: &[u8]) -> (r: Result<u64, OracleError>)
    ensures
        r == source_price(SourceKind::MeteoraDlmm, data@),
{
    if data.len() < 0x16 {
        return Err(OracleError::StaleSource);
    }
    proof {
        le_value_in_range(data@.subrange(0x08, 0x0C));
        le_value_in_range(data@.subrange(0x0C, 0x0E));
        byte_ranges();
    }
    let raw: u128 = read_le(data, 0x08, 4);
    let step: u128 = read_le(data, 0x0C, 2);
    let base: u64 = get_u64(data, 0x0E);
    if base == 0 || step == 0 || step > 10_000 {
        return Err(OracleError::StaleSource);
    }
    let up: bool = raw < 0x8000_0000;
    let bins: u128 = if up {
        raw
    } else {
        0x1_0000_0000 - raw
    };
    let steps: u32 = if bins < MAX_BIN_STEPS as u128 {
        bins as u32
    } else {
        MAX_BIN_STEPS
    };
    let price: u128 = if up {
        carry(base, steps, 10_000 + step, 10_000)?
    } else {
        carry(base, steps, 10_000, 10_000 + step)?
    };
    if price > u64::MAX as u128 {
        return Err(OracleError::Overflow);
    }
    Ok(price as u64)
}

/// The price that a source account of a kind shows.
pub fn read_source_price(kind: SourceKind, source: &AccountView) -> (r: Result<u64, OracleError>)
    ensures
        r == source_price(kind, source.data@),
{
    match kind {
        SourceKind::PumpBonding => read_pump_bonding(source.data.as_slice()),
        SourceKind::PumpSwap => read_pumpswap(source.data.as_slice()),
        SourceKind::RaydiumCpmm => read_raydium_cpmm(source.data.as_slice()),
        SourceKind::MeteoraDlmm => read_meteora_dlmm(source.data.as_slice()),
    }
}

fn read_live_price(kind: SourceKind, source: &AccountView) -> (r: Result<u64, OracleError>)
    ensures
        r == live_price(kind, source.data@),
{
    let price: u64 = read_source_price(kind, source)?;
    if price == 0 {
        return Err(OracleError::StaleSource);
    }
    Ok(price)
}

fn check_feed_account(program_id: &Pubkey, feed: &AccountView) -> (r: Result<(), OracleError>)
    ensures
        match r {
            Ok(_) => feed_account_ok(*program_id, *feed) is Ok,
            Err(e) => feed_account_ok(*program_id, *feed) == Err::<(), OracleError>(e),
        },
{
    if !feed.is_writable {
        return Err(OracleError::AccountNotWritable);
    }
    if !feed.owner.same(program_id) {
        return Err(OracleError::FeedSizeMismatch);
    }
    Ok(())
}

fn ring_with(price: u64) -> (r: [u64; RING_LEN])
    ensures
        r@ == ring_of(price),
{
    let mut r: [u64; RING_LEN] = [0; RING_LEN];
    r[0] = price;
    assert(r@ =~= ring_of(price));
    r
}

fn rewrite(data: &Vec<u8>, g: &Feed) -> (r: Vec<u8>)
    requires
        data@.len() >= Feed::LEN,
    ensures
        rewritten(data@, r@, *g),
{
    let mut out: Vec<u8> = copy_of(data.as_slice());
    match g.write_into(out.as_mut_slice()) {
        Ok(_) => {},
        Err(_) => {},
    }
    out
}

/// The feed and the price that an update adds to it.
fn update_price(program_id: &Pubkey, feed: &AccountView, source: &AccountView) -> (r: Result<(Feed, u64), OracleError>)
    ensures
        match r {
            Ok((f, price)) => {
                &&& update_checked(*program_id, *feed, *source) == Ok::<u64, OracleError>(price)
                &&& f == feed_of(feed.data@)
                &&& feed_at(feed.data@, f)
                &&& price != 0
            },
            Err(e) => update_checked(*program_id, *feed, *source) == Err::<u64, OracleError>(e),
        },
{
    check_feed_account(program_id, feed)?;
    if feed.data.len() < Feed::LEN {
        return Err(OracleError::FeedSizeMismatch);
    }
    let f: Feed = Feed::read_from(feed.data.as_slice())?;
    if !f.is_initialized() {
        return Err(OracleError::FeedNotInitialized);
    }
    if !f.source.same(&source.key) {
        return Err(OracleError::WrongSourceAccount);
    }
    let kind: SourceKind = f.source_kind_enum().ok_or(OracleError::InvalidSourceKind)?;
    if kind == SourceKind::PumpBonding && f.is_graduated() {
        return Err(OracleError::AlreadyGraduated);
    }
    let price: u64 = read_live_price(kind, source)?;
    Ok((f, price))
}

/// The instructions of the oracle. Each takes the accounts and the current slot,
/// and gives the new data of the feed account.
pub struct Processor;

impl Processor {
    /// Set up a feed with the price that its source shows.
    pub fn process_initialize_feed(
        program_id: &Pubkey,
        accounts: &[AccountView],
        args: InitializeFeedArgs,
        slot: u64,
    ) -> (r: Result<Vec<u8>, Failure<OracleError>>)
        ensures
            initialize_feed_obeyed(*program_id, accounts@, args, slot, r),
    {
        if accounts.len() < 2 {
            return Err(Failure::NotEnoughAccountKeys);
        }
        let feed: &AccountView = &accounts[0];
        let source: &AccountView = &accounts[1];
        match check_feed_account(program_id, feed) {
            Ok(x) => x,
            Err(e) => {
                return Err(Failure::Custom(e));
            },
        };
        if feed.data.len() < Feed::LEN {
            return Err(Failure::Custom(OracleError::FeedSizeMismatch));
        }
        let kind: SourceKind = SourceKind::from_u8(args.source_kind).ok_or(Failure::Custom(OracleError::InvalidSourceKind))?;
        if !same_array(&source.key.bytes, &args.source) {
            return Err(Failure::Custom(OracleError::WrongSourceAccount));
        }
        let was: Feed = match Feed::read_from(feed.data.as_slice()) {
            Ok(x) => x,
            Err(e) => {
                return Err(Failure::Custom(e));
            },
        };
        if was.is_initialized() {
            return Err(Failure::Custom(OracleError::FeedAlreadyInitialized));
        }
        let price: u64 = match read_live_price(kind, source) {
            Ok(x) => x,
            Err(e) => {
                return Err(Failure::Custom(e));
            },
        };
        let pad: [u8; 4] = [0, 0, 0, 0];
        assert(pad@ =~= seq![0u8, 0u8, 0u8, 0u8]);
        let g = Feed {
            price_lamports_per_token: price,
            last_update_slot: slot,
            mint: Pubkey { bytes: args.mint },
            source: Pubkey { bytes: args.source },
            source_kind: args.source_kind,
            graduated: 0,
            initialized: 1,
            ring_idx: 1,
            _pad: pad,
            ring_buffer: ring_with(price),
        };
        let out: Vec<u8> = rewrite(&feed.data, &g);
        proof {
            feed_image_is_unique(out@, g, feed_of(out@));
        }
        Ok(out)
    }

    /// Publish the median after the price that the source shows.
    pub fn process_update(program_id: &Pubkey, accounts: &[AccountView], slot: u64) -> (r: Result<
        Vec<u8>,
        Failure<OracleError>,
        >)
        requires
            ready(*program_id, accounts@, OracleInstruction::Update),
        ensures
            update_obeyed(*program_id, accounts@, slot, r),
    {
        if accounts.len() < 2 {
            return Err(Failure::NotEnoughAccountKeys);
        }
        let feed: &AccountView = &accounts[0];
        let source: &AccountView = &accounts[1];
        let (f, price): (Feed, u64) = match update_price(program_id, feed, source) {
            Ok(x) => x,
            Err(e) => {
                return Err(Failure::Custom(e));
            },
        };
        let mut g: Feed = f;
        let at: usize = f.ring_idx as usize;
        g.ring_buffer[at] = price;
        g.ring_idx = ((at + 1) % RING_LEN) as u8;
        proof {
            assert(g.ring_buffer@[at as int] == price);
            median_is_an_observation(g.ring_buffer@);
        }
        g.price_lamports_per_token = ring_median(&g.ring_buffer).ok_or(Failure::Custom(OracleError::StaleSource))?;
        g.last_update_slot = slot;
        let out: Vec<u8> = rewrite(&feed.data, &g);
        proof {
            feed_image_is_unique(out@, g, feed_of(out@));
        }
        Ok(out)
    }

    /// Record that the bonding curve of a feed is complete.
    pub fn process_graduate(program_id: &Pubkey, accounts: &[AccountView]) -> (r: Result<Vec<u8>, Failure<OracleError>>)
        requires
            ready(*program_id, accounts@, OracleInstruction::Graduate),
        ensures
            graduate_obeyed(*program_id, accounts@, r),
    {
        if accounts.len() < 2 {
            return Err(Failure::NotEnoughAccountKeys);
        }
        let feed: &AccountView = &accounts[0];
        let source: &AccountView = &accounts[1];
        match check_feed_account(program_id, feed) {
            Ok(x) => x,
            Err(e) => {
                return Err(Failure::Custom(e));
            },
        };
        let f: Feed = match Feed::read_from(feed.data.as_slice()) {
            Ok(x) => x,
            Err(e) => {
                return Err(Failure::Custom(e));
            },
        };
        if !f.is_initialized() {
            return Err(Failure::Custom(OracleError::FeedNotInitialized));
        }
        if !f.source.same(&source.key) {
            return Err(Failure::Custom(OracleError::WrongSourceAccount));
        }
        if f.is_graduated() {
            return Err(Failure::Custom(OracleError::AlreadyGraduated));
        }
        let kind: SourceKind = f.source_kind_enum().ok_or(Failure::Custom(OracleError::InvalidSourceKind))?;
        if kind != SourceKind::PumpBonding {
            return Err(Failure::Custom(OracleError::InvalidSourceKind));
        }
        if source.data.len() <= COMPLETE_OFFSET {
            return Err(Failure::Custom(OracleError::StaleSource));
        }
        if source.data[COMPLETE_OFFSET] == 0 {
            return Err(Failure::Custom(OracleError::NotGraduated));
        }
        let mut g: Feed = f;
        g.graduated = 1;
        let out: Vec<u8> = rewrite(&feed.data, &g);
        Ok(out)
    }

    /// Point a graduated feed at another source, and start over with its price.
    pub fn process_convert_source(
        program_id: &Pubkey,
        accounts: &[AccountView],
        args: ConvertSourceArgs,
        slot: u64,
    ) -> (r: Result<Vec<u8>, Failure<OracleError>>)
        requires
            ready(*program_id, accounts@, OracleInstruction::ConvertSource(args)),
        ensures
            convert_source_obeyed(*program_id, accounts@, args, slot, r),
    {
        if accounts.len() < 2 {
            return Err(Failure::NotEnoughAccountKeys);
        }
        let feed: &AccountView = &accounts[0];
        let source: &AccountView = &accounts[1];
        match check_feed_account(program_id, feed) {
            Ok(x) => x,
            Err(e) => {
                return Err(Failure::Custom(e));
            },
        };
        let kind: SourceKind = SourceKind::from_u8(args.new_kind).ok_or(Failure::Custom(OracleError::InvalidSourceKind))?;
        if !same_array(&source.key.bytes, &args.new_source) {
            return Err(Failure::Custom(OracleError::WrongSourceAccount));
        }
        let f: Feed = match Feed::read_from(feed.data.as_slice()) {
            Ok(x) => x,
            Err(e) => {
                return Err(Failure::Custom(e));
            },
        };
        if !f.is_initialized() {
            return Err(Failure::Custom(OracleError::FeedNotInitialized));
        }
        if !f.is_graduated() {
            return Err(Failure::Custom(OracleError::ConvertRequiresGraduation));
        }
        let price: u64 = match read_live_price(kind, source) {
            Ok(x) => x,
            Err(e) => {
                return Err(Failure::Custom(e));
            },
        };
        let g = Feed {
            price_lamports_per_token: price,
            last_update_slot: slot,
            mint: f.mint,
            source: Pubkey { bytes: args.new_source },
            source_kind: args.new_kind,
            graduated: f.graduated,
            initialized: f.initialized,
            ring_idx: 1,
            _pad: f._pad,
            ring_buffer: ring_with(price),
        };
        let out: Vec<u8> = rewrite(&feed.data, &g);
        proof {
            feed_image_is_unique(out@, g, feed_of(out@));
        }
        Ok(out)
    }

    /// Whether the accounts are fit for the instruction.
    pub fn is_ready(program_id: &Pubkey, accounts: &[AccountView], instruction_data: &[u8]) -> (r: bool)
        ensures
            r == (forall|ix: OracleInstruction| #[trigger] wire_form(instruction_data@, ix) ==> ready(*program_id, accounts@, ix)),
    {
        let ix: OracleInstruction = match OracleInstruction::unpack(instruction_data) {
            Ok(ix) => ix,
            Err(_) => {
                return true;
            },
        };
        proof {
            assert(wire_form(instruction_data@, ix));
            assert forall|other: OracleInstruction| #[trigger] wire_form(instruction_data@, other) implies other == ix by {
                wire_form_is_unambiguous(instruction_data@, ix, other);
            }
        }
        if accounts.len() < 2 {
            return true;
        }
        let feed: &AccountView = &accounts[0];
        let source: &AccountView = &accounts[1];
        let whole: bool = feed.data.len() >= Feed::LEN;
        match ix {
            OracleInstruction::InitializeFeed(_) => true,
            OracleInstruction::Update => match update_price(program_id, feed, source) {
                Ok((f, _)) => (f.ring_idx as usize) < RING_LEN,
                Err(_) => true,
            },
            OracleInstruction::Graduate => whole || check_feed_account(program_id, feed).is_err(),
            OracleInstruction::ConvertSource(a) => whole || check_feed_account(program_id, feed).is_err()
                || SourceKind::from_u8(a.new_kind).is_none() || !same_array(&source.key.bytes, &a.new_source),
        }
    }

    /// Decode an instruction and carry it out.
    pub fn process(program_id: &Pubkey, accounts: &[AccountView], instruction_data: &[u8], slot: u64) -> (r: Result<
        Vec<u8>,
        Failure<OracleError>,
        >)
        requires
            forall|ix: OracleInstruction| #[trigger] wire_form(instruction_data@, ix) ==> ready(*program_id, accounts@, ix),
        ensures
            forall|ix: OracleInstruction| #[trigger] wire_form(instruction_data@, ix) ==> obeyed(
                *program_id,
                accounts@,
                ix,
                slot,
                r,
            ),
            (forall|ix: OracleInstruction| !wire_form(instruction_data@, ix)) ==> r == Err::<Vec<u8>, Failure<OracleError>>(
                Failure::Custom(OracleError::InvalidInstructionData),
            ),
    {
        let ix: OracleInstruction = match OracleInstruction::unpack(instruction_data) {
            Ok(x) => x,
            Err(e) => {
                return Err(Failure::Custom(e));
            },
        };
        proof {
            assert forall|other: OracleInstruction| #[trigger] wire_form(instruction_data@, other) implies other == ix by {
                wire_form_is_unambiguous(instruction_data@, ix, other);
            }
        }
        match ix {
            OracleInstruction::InitializeFeed(a) => Processor::process_initialize_feed(program_id, accounts, a, slot),
            OracleInstruction::Update => Processor::process_update(program_id, accounts, slot),
            OracleInstruction::Graduate => Processor::process_graduate(program_id, accounts),
            OracleInstruction::ConvertSource(a) => Processor::process_convert_source(program_id, accounts, a, slot),
        }
    }
}

/// The feed account is long enough, once the checks before its first reading have
/// passed, and the ring has the entry that an update would overwrite.
pub open spec fn ready(program: Pubkey, acc: Seq<AccountView>, ix: OracleInstruction) -> bool {
    acc.len() >= 2 ==> match ix {
        OracleInstruction::InitializeFeed(_) => true,
        OracleInstruction::Update => update_ready(program, acc[0], acc[1]),
        OracleInstruction::Graduate => graduate_ready(program, acc[0]),
        OracleInstruction::ConvertSource(a) => convert_ready(program, acc[0], acc[1], a),
    }
}

pub open spec fn update_ready(program: Pubkey, feed: AccountView, source: AccountView) -> bool {
    update_checked(program, feed, source) is Ok ==> feed_of(feed.data@).ring_idx < RING_LEN
}

pub open spec fn graduate_ready(program: Pubkey, feed: AccountView) -> bool {
    feed_account_ok(program, feed) is Ok ==> feed.data@.len() >= Feed::LEN
}

pub open spec fn convert_ready(program: Pubkey, feed: AccountView, source: AccountView, a: ConvertSourceArgs) -> bool {
    feed_account_ok(program, feed) is Ok && SourceKind::of_number(a.new_kind) is Some && source.key.bytes == a.new_source
        ==> feed.data@.len() >= Feed::LEN
}

/// What `InitializeFeed` gives.
pub open spec fn initialize_feed_obeyed(
    program: Pubkey,
    acc: Seq<AccountView>,
    a: InitializeFeedArgs,
    slot: u64,
    r: Result<Vec<u8>, Failure<OracleError>>,
) -> bool {
    if acc.len() < 2 {
        r == Err::<Vec<u8>, Failure<OracleError>>(Failure::NotEnoughAccountKeys)
    } else {
        match initialize_checked(program, acc[0], acc[1], a) {
            Err(e) => r == Err::<Vec<u8>, Failure<OracleError>>(Failure::Custom(e)),
            Ok(price) => {
                &&& r is Ok
                &&& rewritten(acc[0].data@, r->Ok_0@, feed_of(r->Ok_0@))
                &&& is_set_up(feed_of(r->Ok_0@), a, price, slot)
            },
        }
    }
}

/// What `Update` gives.
pub open spec fn update_obeyed(
    program: Pubkey,
    acc: Seq<AccountView>,
    slot: u64,
    r: Result<Vec<u8>, Failure<OracleError>>,
) -> bool {
    if acc.len() < 2 {
        r == Err::<Vec<u8>, Failure<OracleError>>(Failure::NotEnoughAccountKeys)
    } else {
        match update_checked(program, acc[0], acc[1]) {
            Err(e) => r == Err::<Vec<u8>, Failure<OracleError>>(Failure::Custom(e)),
            Ok(price) => {
                &&& r is Ok
                &&& rewritten(acc[0].data@, r->Ok_0@, feed_of(r->Ok_0@))
                &&& is_updated(feed_of(acc[0].data@), feed_of(r->Ok_0@), price, slot)
            },
        }
    }
}

/// What `Graduate` gives.
pub open spec fn graduate_obeyed(
    program: Pubkey,
    acc: Seq<AccountView>,
    r: Result<Vec<u8>, Failure<OracleError>>,
) -> bool {
    if acc.len() < 2 {
        r == Err::<Vec<u8>, Failure<OracleError>>(Failure::NotEnoughAccountKeys)
    } else {
        match graduate_checked(program, acc[0], acc[1]) {
            Err(e) => r == Err::<Vec<u8>, Failure<OracleError>>(Failure::Custom(e)),
            Ok(_) => {
                &&& r is Ok
                &&& rewritten(acc[0].data@, r->Ok_0@, (Feed { graduated: 1, ..feed_of(acc[0].data@) }))
            },
        }
    }
}

/// What `ConvertSource` gives.
pub open spec fn convert_source_obeyed(
    program: Pubkey,
    acc: Seq<AccountView>,
    a: ConvertSourceArgs,
    slot: u64,
    r: Result<Vec<u8>, Failure<OracleError>>,
) -> bool {
    if acc.len() < 2 {
        r == Err::<Vec<u8>, Failure<OracleError>>(Failure::NotEnoughAccountKeys)
    } else {
        match convert_checked(program, acc[0], acc[1], a) {
            Err(e) => r == Err::<Vec<u8>, Failure<OracleError>>(Failure::Custom(e)),
            Ok(price) => {
                &&& r is Ok
                &&& rewritten(acc[0].data@, r->Ok_0@, feed_of(r->Ok_0@))
                &&& is_converted(feed_of(acc[0].data@), feed_of(r->Ok_0@), a, price, slot)
            },
        }
    }
}

/// What an instruction gives.
pub open spec fn obeyed(
    program: Pubkey,
    acc: Seq<AccountView>,
    ix: OracleInstruction,
    slot: u64,
    r: Result<Vec<u8>, Failure<OracleError>>,
) -> bool {
    match ix {
        OracleInstruction::InitializeFeed(a) => initialize_feed_obeyed(program, acc, a, slot, r),
        OracleInstruction::Update => update_obeyed(program, acc, slot, r),
        OracleInstruction::Graduate => graduate_obeyed(program, acc, r),
        OracleInstruction::ConvertSource(a) => convert_source_obeyed(program, acc, a, slot, r),
    }
}

} // verus!
