use record_lifecycle::stake::{
    deposit, enforce_authority, rebalance, withdraw, StakeError, StakePool,
};

fn addr(seed: u8) -> [u8; 32] {
    let mut a = [0u8; 32];
    a[0] = seed;
    a
}

/// Deposit and withdraw always redistribute evenly: after each operation
/// every validator holds the same stake.
#[test]
fn test_secure_rebalancing_maintains_balance() {
    let authority = addr(5);
    let mut pool = StakePool { authority, total_stake: 0 };
    let mut validators = vec![0u64, 0, 0];

    assert!(deposit(&mut pool, &authority, true, 3, &mut validators).is_ok());
    assert_eq!(validators, vec![1, 1, 1], "After deposit 3, each should have 1");

    assert!(withdraw(&mut pool, &authority, true, 3, &mut validators).is_ok());
    assert_eq!(validators, vec![0, 0, 0], "After withdraw 3, each should have 0");

    assert!(deposit(&mut pool, &authority, true, 3, &mut validators).is_ok());
    assert_eq!(validators, vec![1, 1, 1]);

    assert!(withdraw(&mut pool, &authority, true, 3, &mut validators).is_ok());
    assert_eq!(validators, vec![0, 0, 0]);
    assert_eq!(pool.total_stake, 0);
}

/// A withdrawal can never drain chosen validators: it only lowers the
/// global total, and the even split always follows.
#[test]
fn test_cannot_selectively_drain_validators() {
    let authority = addr(5);
    let mut pool = StakePool { authority, total_stake: 0 };
    let mut validators = vec![0u64, 0, 0];

    assert!(deposit(&mut pool, &authority, true, 9, &mut validators).is_ok());
    assert_eq!(
        validators,
        vec![3, 3, 3],
        "Each validator should have 3 after deposit 9"
    );

    assert!(withdraw(&mut pool, &authority, true, 3, &mut validators).is_ok());
    assert_eq!(validators, vec![2, 2, 2]);
    assert_eq!(pool.total_stake, 6);
}

/// The remainder of an uneven split goes one unit at a time from the front.
#[test]
fn test_rebalance_remainder_distribution() {
    let mut validators = vec![9u64, 0, 5];
    assert!(rebalance(7, &mut validators).is_ok());
    assert_eq!(validators, vec![3, 2, 2]);

    let mut one = vec![0u64];
    assert!(rebalance(u64::MAX, &mut one).is_ok());
    assert_eq!(one, vec![u64::MAX]);

    let mut none: Vec<u64> = Vec::new();
    assert_eq!(rebalance(7, &mut none), Err(StakeError::NoValidators));
}

#[test]
fn test_stake_authority_enforced() {
    let authority = addr(5);
    let intruder = addr(6);
    let mut pool = StakePool { authority, total_stake: 10 };
    let mut validators = vec![0u64, 0];

    assert_eq!(
        enforce_authority(&pool, &authority, false),
        Err(StakeError::MissingSignature)
    );
    assert_eq!(
        enforce_authority(&pool, &intruder, true),
        Err(StakeError::WrongAuthority)
    );
    assert_eq!(enforce_authority(&pool, &authority, true), Ok(()));

    assert_eq!(
        deposit(&mut pool, &intruder, true, 1, &mut validators),
        Err(StakeError::WrongAuthority)
    );
    assert_eq!(
        withdraw(&mut pool, &authority, false, 1, &mut validators),
        Err(StakeError::MissingSignature)
    );
    assert_eq!(pool.total_stake, 10);
    assert_eq!(validators, vec![0, 0]);
}

#[test]
fn test_stake_amount_bounds() {
    let authority = addr(5);
    let mut pool = StakePool { authority, total_stake: u64::MAX - 1 };
    let mut validators = vec![0u64, 0];

    assert_eq!(
        deposit(&mut pool, &authority, true, 2, &mut validators),
        Err(StakeError::AmountOutOfRange)
    );
    assert_eq!(
        withdraw(&mut pool, &authority, true, u64::MAX, &mut validators),
        Err(StakeError::AmountOutOfRange)
    );
    assert_eq!(pool.total_stake, u64::MAX - 1);
    assert_eq!(validators, vec![0, 0]);
}
