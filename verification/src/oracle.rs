//! A price-feed consumer that accepts only canonical, fresh, strictly
//! newer readings, and the validated byte views of its records.

use vstd::prelude::*;
use vstd::bytes::{
    lemma_auto_spec_u64_to_from_le_bytes, spec_u64_from_le_bytes, spec_u64_to_le_bytes,
    u64_from_le_bytes, u64_to_le_bytes,
};
use vstd::slice::slice_subrange;
use crate::record::{addr_eq, Address};

verus! {

/// Readings older than this many slots are refused.
pub const PRICE_MAX_AGE: u64 = 3;

/// Exact byte size of a feed record's content: the publication slot and the
/// price, little-endian.
pub const READING_CONTENT_LEN: usize = 16;

/// Exact byte size of an asset record's content: the price and the slot it
/// was last accepted at, little-endian.
pub const ASSET_CONTENT_LEN: usize = 16;

/// One price reading as the feed publishes it.
pub struct OracleReading {
    pub update_slot: u64,
    pub price: u64,
}

/// The consumer's stored state for one asset.
pub struct AssetState {
    pub price: u64,
    pub last_update_slot: u64,
}

/// Why a price update was refused.
#[derive(Clone, Copy, Debug, PartialEq, Eq, Structural)]
pub enum OracleError {
    /// The reading was not supplied at the canonical feed address.
    NonCanonicalFeed,
    /// The feed record is not in the oracle provider's custody.
    WrongProvider,
    /// The reading claims a slot later than the current one.
    FutureReading,
    /// The reading is older than the accepted age bound.
    StaleReading,
    /// The reading is no newer than the last accepted one.
    RolledBack,
}

/// Accepts a price reading only when it comes from the canonical feed
/// address, in the provider's custody, is no older than [`PRICE_MAX_AGE`]
/// slots, and is strictly newer than the last accepted reading -- so an
/// attacker can neither slip in a look-alike feed nor roll the stored price
/// back to an old one.  The canonical identities are injected by the
/// caller's configuration, and a refused reading changes nothing.
pub fn update_price(
    asset: &mut AssetState,
    feed_address: &Address,
    feed_owner: &Address,
    reading: &OracleReading,
    current_slot: u64,
    canonical_feed: &Address,
    provider: &Address,
) -> (r: Result<(), OracleError>)
    ensures
        match r {
            Ok(()) => {
                &&& feed_address@ == canonical_feed@
                &&& feed_owner@ == provider@
                &&& reading.update_slot <= current_slot
                &&& current_slot - reading.update_slot <= PRICE_MAX_AGE
                &&& reading.update_slot > old(asset).last_update_slot
                &&& final(asset).price == reading.price
                &&& final(asset).last_update_slot == reading.update_slot
            },
            Err(e) => {
                &&& final(asset).price == old(asset).price
                &&& final(asset).last_update_slot == old(asset).last_update_slot
                &&& if feed_address@ != canonical_feed@ {
                    e == OracleError::NonCanonicalFeed
                } else if feed_owner@ != provider@ {
                    e == OracleError::WrongProvider
                } else if reading.update_slot > current_slot {
                    e == OracleError::FutureReading
                } else if current_slot - reading.update_slot > PRICE_MAX_AGE {
                    e == OracleError::StaleReading
                } else {
                    e == OracleError::RolledBack && reading.update_slot <= old(
                        asset,
                    ).last_update_slot
                }
            },
        },
{
    if !addr_eq(feed_address, canonical_feed) {
        return Err(OracleError::NonCanonicalFeed);
    }
    if !addr_eq(feed_owner, provider) {
        return Err(OracleError::WrongProvider);
    }
    let age = match current_slot.checked_sub(reading.update_slot) {
        Some(a) => a,
        None => {
            return Err(OracleError::FutureReading);
        },
    };
    if age > PRICE_MAX_AGE {
        return Err(OracleError::StaleReading);
    }
    if reading.update_slot <= asset.last_update_slot {
        return Err(OracleError::RolledBack);
    }
    asset.price = reading.price;
    asset.last_update_slot = reading.update_slot;
    Ok(())
}

/// The typed view of a feed record's content, available only when the
/// region has exactly the reading shape.
pub open spec fn reading_from_bytes_spec(data: Seq<u8>) -> Option<OracleReading> {
    if data.len() != 16 {
        None
    } else {
        Some(
            OracleReading {
                update_slot: spec_u64_from_le_bytes(data.subrange(0, 8)),
                price: spec_u64_from_le_bytes(data.subrange(8, 16)),
            },
        )
    }
}

/// Reads a feed record out of its raw content region.
pub fn reading_from_bytes(data: &Vec<u8>) -> (r: Option<OracleReading>)
    ensures
        match r {
            Some(reading) => reading_from_bytes_spec(data@) == Some(reading),
            None => data@.len() != 16,
        },
{
    if data.len() != READING_CONTENT_LEN {
        return None;
    }
    let s = data.as_slice();
    let update_slot = u64_from_le_bytes(slice_subrange(s, 0, 8));
    let price = u64_from_le_bytes(slice_subrange(s, 8, 16));
    Some(OracleReading { update_slot, price })
}

/// The typed view of an asset record's content, available only when the
/// region has exactly the asset shape.
pub open spec fn asset_from_bytes_spec(data: Seq<u8>) -> Option<AssetState> {
    if data.len() != 16 {
        None
    } else {
        Some(
            AssetState {
                price: spec_u64_from_le_bytes(data.subrange(0, 8)),
                last_update_slot: spec_u64_from_le_bytes(data.subrange(8, 16)),
            },
        )
    }
}

/// Reads an asset record out of its raw content region.
pub fn asset_from_bytes(data: &Vec<u8>) -> (r: Option<AssetState>)
    ensures
        match r {
            Some(asset) => asset_from_bytes_spec(data@) == Some(asset),
            None => data@.len() != 16,
        },
{
    if data.len() != ASSET_CONTENT_LEN {
        return None;
    }
    let s = data.as_slice();
    let price = u64_from_le_bytes(slice_subrange(s, 0, 8));
    let last_update_slot = u64_from_le_bytes(slice_subrange(s, 8, 16));
    Some(AssetState { price, last_update_slot })
}

/// Writes an asset record back to its raw content region; reading the
/// region recovers the record exactly.
pub fn asset_to_bytes(asset: &AssetState) -> (r: Vec<u8>)
    ensures
        r@.len() == 16,
        asset_from_bytes_spec(r@) == Some(*asset),
{
    proof {
        lemma_auto_spec_u64_to_from_le_bytes();
    }
    let mut r = u64_to_le_bytes(asset.price);
    let mut s = u64_to_le_bytes(asset.last_update_slot);
    let ghost sg = s@;
    r.append(&mut s);
    proof {
        assert(r@.subrange(0, 8) =~= spec_u64_to_le_bytes(asset.price));
        assert(r@.subrange(8, 16) =~= sg);
    }
    r
}

} // verus!
