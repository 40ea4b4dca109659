//! What the oracle's instructions do to a feed, in plain terms.

use vstd::prelude::*;
use crate::address::{AccountView, Pubkey};
use crate::bytes::field_at;
use crate::oracle::error::OracleError;
use crate::oracle::instruction::{ConvertSourceArgs, InitializeFeedArgs};
use crate::oracle::median::{median_is_in_the_middle, price_count, prices_below, prices_up_to};
use crate::oracle::processor::{
    convert_checked, convert_source_obeyed, graduate_checked, graduate_obeyed, initialize_checked,
    initialize_feed_obeyed, is_updated, source_price, update_checked, update_obeyed,
};
use crate::oracle::state::{feed_at, feed_image_is_unique, feed_of, Feed, SourceKind};

verus! {

/// The kinds of sources by number.
pub open spec fn is_kind(n: u8, kind: SourceKind) -> bool {
    match kind {
        SourceKind::PumpBonding => n == 0,
        SourceKind::PumpSwap => n == 1,
        SourceKind::RaydiumCpmm => n == 2,
        SourceKind::MeteoraDlmm => n == 3,
    }
}

/// The source shows the price `p`, which is not zero.
pub open spec fn shows(n: u8, data: Seq<u8>, p: u64) -> bool {
    &&& p != 0
    &&& exists|kind: SourceKind| #[trigger] is_kind(n, kind) && source_price(kind, data) == Ok::<u64, OracleError>(p)
}

proof fn lemma_kind(n: u8, data: Seq<u8>, p: u64)
    ensures
        shows(n, data, p) <==> p != 0 && SourceKind::of_number(n) is Some && source_price(SourceKind::of_number(n)->0, data)
            == Ok::<u64, OracleError>(p),
{
    if SourceKind::of_number(n) is Some {
        assert(is_kind(n, SourceKind::of_number(n)->0));
    }
    assert forall|kind: SourceKind| #[trigger] is_kind(n, kind) implies SourceKind::of_number(n) == Some(kind) by {}
}

/// The ring holds `p` in its first place, and nothing else.
pub open spec fn ring_starts_with(ring: Seq<u64>, p: u64) -> bool {
    &&& ring[0] == p
    &&& forall|k: int| 1 <= k < 30 ==> #[trigger] ring[k] == 0
}

/// An update reads the feed's own source, puts the price that it shows in the place
/// of the oldest, moves on by one, and publishes the median of what the ring holds,
/// where readers look for it. Nothing else of the feed changes. A graduated bonding
/// curve is not read.
pub proof fn update_publishes_the_median(program: Pubkey, acc: Seq<AccountView>, slot: u64, out: Vec<u8>)
    requires
        acc.len() >= 2,
        update_obeyed(program, acc, slot, Ok(out)),
        feed_of(acc[0].data@).ring_idx < 30,
    ensures
        ({
                let f = feed_of(acc[0].data@);
                let g = feed_of(out@);
                let p = g.ring_buffer@[f.ring_idx as int];
                let m = g.price_lamports_per_token;
                &&& acc[0].is_writable && acc[0].owner == program
                &&& f.initialized != 0
                &&& f.source == acc[1].key
                &&& !(f.source_kind == 0 && f.graduated != 0)
                &&& shows(f.source_kind, acc[1].data@, p)
                &&& forall|k: int| 0 <= k < 30 && k != f.ring_idx ==> #[trigger] g.ring_buffer@[k] == f.ring_buffer@[k]
                &&& g.ring_idx == if f.ring_idx == 29 {
                    0
                } else {
                    f.ring_idx + 1
                }
                &&& g.ring_buffer@.contains(m) && m != 0
                &&& prices_below(g.ring_buffer@, m) <= (price_count(g.ring_buffer@) - 1) / 2 < prices_up_to(g.ring_buffer@, m)
                &&& field_at(out@, 0, 8) == m
                &&& field_at(out@, 8, 8) == slot
                &&& g.last_update_slot == slot
                &&& g.mint == f.mint && g.source == f.source && g.source_kind == f.source_kind && g.graduated == f.graduated
                    && g.initialized == f.initialized
                &&& out@.len() == acc[0].data@.len()
        }),
{
    let f = feed_of(acc[0].data@);
    let g = feed_of(out@);
    median_is_in_the_middle(g.ring_buffer@);
    lemma_kind(f.source_kind, acc[1].data@, g.ring_buffer@[f.ring_idx as int]);
}

/// Setting a feed up starts it with the price that its source shows.
pub proof fn feed_starts_with_the_price(
    program: Pubkey,
    acc: Seq<AccountView>,
    a: InitializeFeedArgs,
    slot: u64,
    out: Vec<u8>,
)
    requires
        acc.len() >= 2,
        initialize_feed_obeyed(program, acc, a, slot, Ok(out)),
    ensures
        ({
                let g = feed_of(out@);
                let p = g.price_lamports_per_token;
                &&& acc[0].is_writable && acc[0].owner == program
                &&& feed_of(acc[0].data@).initialized == 0
                &&& acc[1].key.bytes == a.source
                &&& shows(a.source_kind, acc[1].data@, p)
                &&& ring_starts_with(g.ring_buffer@, p) && g.ring_idx == 1
                &&& g.mint.bytes == a.mint && g.source.bytes == a.source && g.source_kind == a.source_kind
                &&& g.graduated == 0 && g.initialized == 1
                &&& g.last_update_slot == slot
                &&& field_at(out@, 0, 8) == p
        }),
{
    let g = feed_of(out@);
    lemma_kind(a.source_kind, acc[1].data@, g.price_lamports_per_token);
}

/// A feed graduates where its bonding curve says that it is complete, and nothing
/// but that mark changes.
pub proof fn graduation_marks_the_feed(program: Pubkey, acc: Seq<AccountView>, out: Vec<u8>)
    requires
        acc.len() >= 2,
        graduate_obeyed(program, acc, Ok(out)),
    ensures
        ({
                let f = feed_of(acc[0].data@);
                let g = feed_of(out@);
                &&& acc[0].is_writable && acc[0].owner == program
                &&& f.initialized != 0 && f.graduated == 0 && f.source_kind == 0
                &&& f.source == acc[1].key
                &&& acc[1].data@.len() > 166 && acc[1].data@[166] != 0
                &&& g == (Feed { graduated: 1, ..f })
        }),
{
    let f = feed_of(acc[0].data@);
    let h = Feed { graduated: 1, ..f };
    assert(feed_at(out@, h));
    feed_image_is_unique(out@, feed_of(out@), h);
}

/// A graduated feed that is pointed at another source starts over with the price
/// that it shows; it stays graduated, and keeps its mint.
pub proof fn conversion_starts_over(
    program: Pubkey,
    acc: Seq<AccountView>,
    a: ConvertSourceArgs,
    slot: u64,
    out: Vec<u8>,
)
    requires
        acc.len() >= 2,
        convert_source_obeyed(program, acc, a, slot, Ok(out)),
    ensures
        ({
                let f = feed_of(acc[0].data@);
                let g = feed_of(out@);
                let p = g.price_lamports_per_token;
                &&& acc[0].is_writable && acc[0].owner == program
                &&& f.initialized != 0 && f.graduated != 0
                &&& acc[1].key.bytes == a.new_source
                &&& shows(a.new_kind, acc[1].data@, p)
                &&& ring_starts_with(g.ring_buffer@, p) && g.ring_idx == 1
                &&& g.source.bytes == a.new_source && g.source_kind == a.new_kind
                &&& g.mint == f.mint && g.graduated == f.graduated && g.initialized == f.initialized
                &&& g.last_update_slot == slot
                &&& field_at(out@, 0, 8) == p
        }),
{
    let g = feed_of(out@);
    lemma_kind(a.new_kind, acc[1].data@, g.price_lamports_per_token);
}

/// A feed is set up, updated, graduated or pointed elsewhere wherever its account is
/// writable and the program's, the source is the one it names and shows a price, and
/// the feed has come that far.
pub proof fn feeds_are_accepted(
    program: Pubkey,
    feed: AccountView,
    source: AccountView,
    a: InitializeFeedArgs,
    c: ConvertSourceArgs,
    p: u64,
)
    ensures
        ({
                let f = feed_of(feed.data@);
                let own = feed.is_writable && feed.owner == program;
                &&& initialize_checked(program, feed, source, a) == Ok::<_, OracleError>(p) <==> own && feed.data@.len() >= 328
                    && source.key.bytes == a.source && f.initialized == 0 && shows(a.source_kind, source.data@, p)
                &&& update_checked(program, feed, source) == Ok::<_, OracleError>(p) <==> own && feed.data@.len() >= 328
                    && f.initialized != 0 && f.source == source.key && !(f.source_kind == 0 && f.graduated != 0) && shows(
                    f.source_kind,
                    source.data@,
                    p,
                )
                &&& graduate_checked(program, feed, source) is Ok <==> own && f.initialized != 0 && f.source == source.key && f.graduated
                    == 0 && f.source_kind == 0 && source.data@.len() > 166 && source.data@[166] != 0
                &&& convert_checked(program, feed, source, c) == Ok::<_, OracleError>(p) <==> own && source.key.bytes == c.new_source
                    && f.initialized != 0 && f.graduated != 0 && shows(c.new_kind, source.data@, p)
        }),
{
    let f = feed_of(feed.data@);
    lemma_kind(a.source_kind, source.data@, p);
    lemma_kind(f.source_kind, source.data@, p);
    lemma_kind(c.new_kind, source.data@, p);
}

/// The last thirty prices are remembered: an update keeps the price of the one
/// before it.
pub proof fn ring_remembers(f: Feed, g: Feed, h: Feed, p: u64, q: u64, now: u64, later: u64)
    requires
        f.ring_idx < 30,
        is_updated(f, g, p, now),
        is_updated(g, h, q, later),
    ensures
        h.ring_buffer@[f.ring_idx as int] == p,
        h.ring_buffer@[if f.ring_idx == 29 { 0 } else { f.ring_idx + 1 }] == q,
{
}

} // verus!
