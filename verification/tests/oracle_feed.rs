use record_lifecycle::oracle::{
    asset_from_bytes, asset_to_bytes, reading_from_bytes, update_price, AssetState, OracleError,
    OracleReading,
};

fn addr(seed: u8) -> [u8; 32] {
    let mut a = [0u8; 32];
    a[0] = seed;
    a
}

fn canonical_feed() -> [u8; 32] {
    [1u8; 32]
}

fn provider() -> [u8; 32] {
    [0u8; 32]
}

/// A fresh, strictly newer reading from the canonical feed updates the
/// stored price and slot.
#[test]
fn test_canonical_feed_accepted() {
    let mut asset = AssetState { price: 500, last_update_slot: 16_999_998 };
    let reading = OracleReading { update_slot: 16_999_999, price: 600 };

    let result = update_price(
        &mut asset,
        &canonical_feed(),
        &provider(),
        &reading,
        17_000_000,
        &canonical_feed(),
        &provider(),
    );
    assert!(result.is_ok(), "Should accept canonical feed with newer price");
    assert_eq!(asset.price, 600, "Price should update to new value");
    assert_eq!(asset.last_update_slot, 16_999_999, "Slot should update to newer slot");
}

/// A reading older than the last accepted one is refused: the stored price
/// can never roll back.
#[test]
fn test_rollback_rejected() {
    let mut asset = AssetState { price: 600, last_update_slot: 16_999_999 };
    let reading = OracleReading { update_slot: 16_999_998, price: 400 };

    let result = update_price(
        &mut asset,
        &canonical_feed(),
        &provider(),
        &reading,
        17_000_000,
        &canonical_feed(),
        &provider(),
    );
    assert_eq!(result, Err(OracleError::RolledBack), "Should reject rollback (older slot)");
    assert_eq!(asset.price, 600);
    assert_eq!(asset.last_update_slot, 16_999_999);
}

/// A reading at a look-alike address, or outside the provider's custody,
/// is refused before any of its fields are trusted.
#[test]
fn test_forged_feed_rejected() {
    let mut asset = AssetState { price: 500, last_update_slot: 10 };
    let reading = OracleReading { update_slot: 11, price: 9 };

    assert_eq!(
        update_price(
            &mut asset,
            &addr(9),
            &provider(),
            &reading,
            12,
            &canonical_feed(),
            &provider(),
        ),
        Err(OracleError::NonCanonicalFeed)
    );
    assert_eq!(
        update_price(
            &mut asset,
            &canonical_feed(),
            &addr(9),
            &reading,
            12,
            &canonical_feed(),
            &provider(),
        ),
        Err(OracleError::WrongProvider)
    );
    assert_eq!(asset.price, 500);
    assert_eq!(asset.last_update_slot, 10);
}

/// Readings from the future or beyond the age bound are refused.
#[test]
fn test_reading_age_bounds() {
    let mut asset = AssetState { price: 500, last_update_slot: 10 };

    // slot 20 claims to come from the future of slot 19
    let future = OracleReading { update_slot: 20, price: 9 };
    assert_eq!(
        update_price(
            &mut asset,
            &canonical_feed(),
            &provider(),
            &future,
            19,
            &canonical_feed(),
            &provider(),
        ),
        Err(OracleError::FutureReading)
    );

    // four slots old is beyond the bound of three
    let old = OracleReading { update_slot: 15, price: 9 };
    assert_eq!(
        update_price(
            &mut asset,
            &canonical_feed(),
            &provider(),
            &old,
            19,
            &canonical_feed(),
            &provider(),
        ),
        Err(OracleError::StaleReading)
    );

    // exactly three slots old is still acceptable
    let edge = OracleReading { update_slot: 16, price: 9 };
    assert!(
        update_price(
            &mut asset,
            &canonical_feed(),
            &provider(),
            &edge,
            19,
            &canonical_feed(),
            &provider(),
        )
        .is_ok()
    );
    assert_eq!(asset.price, 9);
    assert_eq!(asset.last_update_slot, 16);
}

#[test]
fn test_oracle_byte_views() {
    let mut raw = 21u64.to_le_bytes().to_vec();
    raw.extend_from_slice(&777u64.to_le_bytes());
    let reading = reading_from_bytes(&raw).unwrap();
    assert_eq!(reading.update_slot, 21);
    assert_eq!(reading.price, 777);
    assert!(reading_from_bytes(&vec![0u8; 15]).is_none());

    let asset = AssetState { price: 777, last_update_slot: 21 };
    let bytes = asset_to_bytes(&asset);
    assert_eq!(bytes.len(), 16);
    let back = asset_from_bytes(&bytes).unwrap();
    assert_eq!(back.price, 777);
    assert_eq!(back.last_update_slot, 21);
    assert!(asset_from_bytes(&Vec::new()).is_none());
}
