use record_lifecycle::pool::{claim, deposit, Pool, PoolError, User};

/// Deposit rejected at the end-of-window boundary: with
/// `end_time == claim_time == 100`, a deposit at exactly 100 must fail, so a
/// deposit and a claim can never land on the same instant.
#[test]
fn test_secure_reject_deposit_at_boundary() {
    let t: i64 = 100;
    let mut pool = Pool { start_time: 0, end_time: t, claim_time: t, total_deposited: 1 };
    let mut user = User { deposited: 0, claimed: false };

    let result = deposit(&mut pool, &mut user, 100, t);
    assert!(result.is_err(), "Fix working: Deposit rejected at boundary");
    assert_eq!(result, Err(PoolError::DepositClosed));
    assert_eq!(user.deposited, 0);
    assert_eq!(pool.total_deposited, 1);
}

/// Claim allowed at exactly `claim_time` once the deposit window is closed:
/// with `end_time = 499` and `claim_time = 500`, a claim at 500 succeeds.
#[test]
fn test_secure_claim_at_claim_time() {
    let t: i64 = 500;
    let pool = Pool { start_time: 0, end_time: t - 1, claim_time: t, total_deposited: 100 };
    let mut user = User { deposited: 10, claimed: false };

    let result = claim(&pool, &mut user, t);
    assert!(result.is_ok(), "Fix working: Claim allowed at claim_time");
    assert!(user.claimed);
}

#[test]
fn test_deposit_inside_window() {
    let mut pool = Pool { start_time: 10, end_time: 100, claim_time: 100, total_deposited: 0 };
    let mut user = User { deposited: 5, claimed: false };

    assert_eq!(deposit(&mut pool, &mut user, 20, 10), Ok(()));
    assert_eq!(user.deposited, 25);
    assert_eq!(pool.total_deposited, 20);
    // before the window opens
    assert_eq!(
        deposit(&mut pool, &mut user, 20, 9),
        Err(PoolError::DepositClosed)
    );
    // just before it closes
    assert_eq!(deposit(&mut pool, &mut user, 1, 99), Ok(()));
    assert_eq!(user.deposited, 26);
    assert_eq!(pool.total_deposited, 21);
}

#[test]
fn test_deposit_saturates() {
    let mut pool = Pool { start_time: 0, end_time: 10, claim_time: 10, total_deposited: u64::MAX - 1 };
    let mut user = User { deposited: u64::MAX - 1, claimed: false };

    assert_eq!(deposit(&mut pool, &mut user, 5, 0), Ok(()));
    assert_eq!(user.deposited, u64::MAX);
    assert_eq!(pool.total_deposited, u64::MAX);
}

#[test]
fn test_claim_exact_reward() {
    let pool = Pool { start_time: 0, end_time: 99, claim_time: 100, total_deposited: 100 };
    let mut user = User { deposited: 10, claimed: false };

    // 10 * 1000 / 100 = 100
    assert_eq!(claim(&pool, &mut user, 100), Ok(100));
    assert!(user.claimed);
}

#[test]
fn test_claim_empty_pool_divides_by_one() {
    let pool = Pool { start_time: 0, end_time: 99, claim_time: 100, total_deposited: 0 };
    let mut user = User { deposited: 3, claimed: false };

    // 3 * 1000 / max(0, 1) = 3000
    assert_eq!(claim(&pool, &mut user, 200), Ok(3000));
}

#[test]
fn test_claim_before_window_rejected() {
    let pool = Pool { start_time: 0, end_time: 99, claim_time: 100, total_deposited: 10 };
    let mut user = User { deposited: 10, claimed: false };

    assert_eq!(claim(&pool, &mut user, 99), Err(PoolError::ClaimNotOpen));
    assert!(!user.claimed);
}

#[test]
fn test_claim_only_once() {
    let pool = Pool { start_time: 0, end_time: 99, claim_time: 100, total_deposited: 10 };
    let mut user = User { deposited: 10, claimed: false };

    assert!(claim(&pool, &mut user, 100).is_ok());
    assert_eq!(claim(&pool, &mut user, 101), Err(PoolError::AlreadyClaimed));
}
