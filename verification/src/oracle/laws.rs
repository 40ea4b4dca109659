//! What holds of a feed over its life.

use vstd::prelude::*;
use crate::address::{AccountView, Pubkey};
use crate::oracle::instruction::{ConvertSourceArgs, InitializeFeedArgs};
use crate::oracle::processor::{
    convert_checked, convert_ready, graduate_checked, graduate_ready, initialize_checked,
    is_converted, is_set_up, is_updated, live_price, ring_of, update_checked, update_ready,
};
use crate::oracle::state::{
    feed_of, median_is_an_observation, median_of, Feed, SourceKind, RING_LEN,
};

verus! {

/// A feed that readers can rely on: the next entry of the ring exists, and the
/// published price is the median of the ring, so a price that was observed.
pub open spec fn is_sound(f: Feed) -> bool {
    &&& f.initialized != 0
    &&& f.ring_idx < RING_LEN
    &&& median_of(f.ring_buffer@) == Some(f.price_lamports_per_token)
}

/// The published price of a sound feed is one of the prices in its ring, and not
/// zero.
pub proof fn published_price_was_observed(f: Feed)
    requires
        is_sound(f),
    ensures
        f.price_lamports_per_token != 0,
        f.ring_buffer@.contains(f.price_lamports_per_token),
{
    median_is_an_observation(f.ring_buffer@);
}

/// A ring with one price has that price as its median.
pub proof fn single_observation_is_median(price: u64)
    requires
        price != 0,
    ensures
        median_of(ring_of(price)) == Some(price),
{
    median_is_an_observation(ring_of(price));
    assert(ring_of(price)[0] == price);
}

/// A feed is sound from the moment it is set up.
pub proof fn set_up_feed_is_sound(g: Feed, a: InitializeFeedArgs, price: u64, now: u64)
    requires
        price != 0,
        is_set_up(g, a, price, now),
    ensures
        is_sound(g),
{
    single_observation_is_median(price);
}

/// An update keeps a feed sound.
pub proof fn update_keeps_feed_sound(f: Feed, g: Feed, price: u64, now: u64)
    requires
        is_sound(f),
        is_updated(f, g, price, now),
    ensures
        is_sound(g),
{
}

/// A change of source keeps a feed sound.
pub proof fn conversion_keeps_feed_sound(f: Feed, g: Feed, a: ConvertSourceArgs, price: u64, now: u64)
    requires
        price != 0,
        is_sound(f),
        is_converted(f, g, a, price, now),
    ensures
        is_sound(g),
{
    single_observation_is_median(price);
}

/// The account of a sound feed is fit for every instruction.
pub proof fn sound_feed_is_ready(program: Pubkey, feed: AccountView, source: AccountView, a: ConvertSourceArgs)
    requires
        feed.data@.len() >= Feed::LEN,
        is_sound(feed_of(feed.data@)),
    ensures
        update_ready(program, feed, source),
        graduate_ready(program, feed),
        convert_ready(program, feed, source, a),
{
}

/// A feed is set up once: another attempt fails, whoever makes it.
pub proof fn feed_is_set_up_once(program: Pubkey, feed: AccountView, source: AccountView, a: InitializeFeedArgs)
    requires
        feed_of(feed.data@).initialized != 0,
    ensures
        initialize_checked(program, feed, source, a) is Err,
{
}

/// A feed graduates once.
pub proof fn feed_graduates_once(program: Pubkey, feed: AccountView, source: AccountView)
    requires
        feed_of(feed.data@).graduated != 0,
    ensures
        graduate_checked(program, feed, source) is Err,
{
}

/// A graduated bonding curve gives no more prices: its feed must be converted.
pub proof fn graduated_curve_gives_no_price(program: Pubkey, feed: AccountView, source: AccountView)
    requires
        feed_of(feed.data@).graduated != 0,
        SourceKind::of_number(feed_of(feed.data@).source_kind) == Some(SourceKind::PumpBonding),
    ensures
        update_checked(program, feed, source) is Err,
{
}

/// A feed that has not graduated keeps its source.
pub proof fn conversion_needs_graduation(program: Pubkey, feed: AccountView, source: AccountView, a: ConvertSourceArgs)
    requires
        feed_of(feed.data@).graduated == 0,
    ensures
        convert_checked(program, feed, source, a) is Err,
{
}

/// No price of zero is ever taken: the prices that instructions accept are live.
pub proof fn accepted_prices_are_not_zero(kind: SourceKind, data: Seq<u8>)
    ensures
        live_price(kind, data) matches Ok(p) ==> p != 0,
{
}

} // verus!
