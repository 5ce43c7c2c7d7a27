//! The registry makes no assumption about records reconstructed from
//! externally-owned memory: every operation re-validates them from scratch,
//! and the checked decrement holds even against states no well-formed
//! creation sequence can reach.

use record_lifecycle::errors::LifecycleError;
use record_lifecycle::pool::{pool_from_bytes, pool_to_bytes, user_from_bytes, user_to_bytes, Pool, User};
use record_lifecycle::registry::Registry;

fn addr(seed: u8) -> [u8; 32] {
    let mut a = [0u8; 32];
    a[0] = seed;
    a
}

fn program_tag() -> [u8; 32] {
    addr(7)
}

/// A loaded parent that declares a zero count while a loaded child still
/// points at it is inconsistent memory; the checked subtraction refuses the
/// decrement instead of wrapping to a huge count.
#[test]
fn test_underflow_refused_on_inconsistent_memory() {
    let mut reg = Registry::new(program_tag());
    let user = addr(1);
    let parent = addr(2);
    let child = addr(3);

    // count = 0 although a child is bound: not reachable by well-formed
    // creations, but loadable from attacker-addressable memory
    reg.load_record(&parent, &program_tag(), 1_000_000, 0u64.to_le_bytes().to_vec());
    reg.load_record(&child, &program_tag(), 1_000_000, parent.to_vec());

    let result = reg.close_child(&child, &parent, &user);
    assert_eq!(result, Err(LifecycleError::InvariantViolation));
    // nothing was mutated, and the count did not wrap
    assert_eq!(reg.child_count_at(&parent), Ok(0));
    assert_eq!(reg.value_at(&child), 1_000_000);
    assert_eq!(reg.value_at(&user), 0);
}

/// Records loaded from memory behave exactly like created ones when they
/// are consistent.
#[test]
fn test_loaded_records_close_normally() {
    let mut reg = Registry::new(program_tag());
    let user = addr(1);
    let parent = addr(2);
    let child = addr(3);

    reg.load_record(&parent, &program_tag(), 1_000_000, 1u64.to_le_bytes().to_vec());
    reg.load_record(&child, &program_tag(), 1_000_000, parent.to_vec());
    assert!(reg.is_hosted(&parent));
    assert!(reg.is_hosted(&child));
    assert!(!reg.is_hosted(&user));

    assert!(reg.close_child(&child, &parent, &user).is_ok());
    assert_eq!(reg.child_count_at(&parent), Ok(0));
    assert!(reg.close_parent(&parent, &user).is_ok());
    assert_eq!(reg.value_at(&user), 2_000_000);
}

/// A record with a liveness signal but no attached value is treated as
/// stale, not trusted.
#[test]
fn test_valueless_record_is_stale() {
    let mut reg = Registry::new(program_tag());
    let user = addr(1);
    let parent = addr(2);
    let child = addr(3);

    reg.load_record(&parent, &program_tag(), 0, 1u64.to_le_bytes().to_vec());
    reg.load_record(&child, &program_tag(), 1_000_000, parent.to_vec());

    assert_eq!(
        reg.close_child(&child, &parent, &user),
        Err(LifecycleError::StaleOrForgedReference)
    );
}

#[test]
fn test_pool_bytes_round_trip() {
    let pool = Pool { start_time: -5, end_time: 100, claim_time: 100, total_deposited: 42 };
    let bytes = pool_to_bytes(&pool);
    assert_eq!(bytes.len(), 32);
    let back = pool_from_bytes(&bytes).unwrap();
    assert_eq!(back.start_time, -5);
    assert_eq!(back.end_time, 100);
    assert_eq!(back.claim_time, 100);
    assert_eq!(back.total_deposited, 42);
    assert!(pool_from_bytes(&vec![0u8; 31]).is_none());
}

#[test]
fn test_user_bytes_round_trip() {
    let user = User { deposited: 77, claimed: true };
    let bytes = user_to_bytes(&user);
    assert_eq!(bytes.len(), 9);
    let back = user_from_bytes(&bytes).unwrap();
    assert_eq!(back.deposited, 77);
    assert!(back.claimed);

    let fresh = user_from_bytes(&{
        let mut d = 10u64.to_le_bytes().to_vec();
        d.push(0);
        d
    })
    .unwrap();
    assert_eq!(fresh.deposited, 10);
    assert!(!fresh.claimed);
    assert!(user_from_bytes(&vec![0u8; 8]).is_none());
}
