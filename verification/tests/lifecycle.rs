use record_lifecycle::errors::LifecycleError;
use record_lifecycle::registry::Registry;

fn addr(seed: u8) -> [u8; 32] {
    let mut a = [0u8; 32];
    a[0] = seed;
    a
}

fn program_tag() -> [u8; 32] {
    addr(7)
}

/// A parent with one bound child must refuse to close.
#[test]
fn test_cannot_close_parent_with_child() {
    let mut reg = Registry::new(program_tag());
    let user = addr(1);
    let parent = addr(2);
    let child = addr(3);

    reg.install_foreign(&user, &[0u8; 32], 10_000_000_000, Vec::new());
    reg.create_parent(&parent, 1_000_000);
    reg.create_child(&child, &parent, 1_000_000);
    assert_eq!(reg.child_count_at(&parent), Ok(1));

    let result = reg.close_parent(&parent, &user);
    assert!(result.is_err(), "Parent must not close while child exists");
    assert_eq!(result, Err(LifecycleError::ChildrenStillReferencing));
    // nothing was mutated
    assert_eq!(reg.child_count_at(&parent), Ok(1));
    assert_eq!(reg.value_at(&parent), 1_000_000);
}

/// Closing the child first and the parent second succeeds.
#[test]
fn test_child_then_parent_close() {
    let mut reg = Registry::new(program_tag());
    let user = addr(1);
    let parent = addr(2);
    let child = addr(3);

    reg.install_foreign(&user, &[0u8; 32], 10_000_000_000, Vec::new());
    reg.create_parent(&parent, 1_000_000);
    reg.create_child(&child, &parent, 1_000_000);

    assert!(reg.close_child(&child, &parent, &user).is_ok());
    assert_eq!(reg.child_count_at(&parent), Ok(0));
    assert_eq!(reg.value_at(&user), 10_000_000_000 + 1_000_000);

    assert!(reg.close_parent(&parent, &user).is_ok());
    assert_eq!(reg.value_at(&user), 10_000_000_000 + 2_000_000);
    assert_eq!(reg.value_at(&parent), 0);
    assert_eq!(reg.content_len_at(&parent), 0);
}

/// A parent closed while its count is zero succeeds in one step, moving its
/// whole attached value to the beneficiary.
#[test]
fn test_close_parent_without_children() {
    let mut reg = Registry::new(program_tag());
    let parent = addr(2);
    let user = addr(1);

    reg.create_parent(&parent, 1_000_000);
    assert!(reg.close_parent(&parent, &user).is_ok());
    assert_eq!(reg.value_at(&user), 1_000_000);
    assert_eq!(reg.value_at(&parent), 0);
    assert_eq!(reg.custody_at(&parent), [0u8; 32]);
    assert_eq!(reg.content_len_at(&parent), 0);
}

/// The count drops one child at a time; the parent only closes at zero.
#[test]
fn test_two_children_close_in_turn() {
    let mut reg = Registry::new(program_tag());
    let user = addr(1);
    let parent = addr(2);
    let child_a = addr(3);
    let child_b = addr(4);

    reg.create_parent(&parent, 1_000_000);
    reg.create_child(&child_a, &parent, 2_000_000);
    reg.create_child(&child_b, &parent, 3_000_000);
    assert_eq!(reg.child_count_at(&parent), Ok(2));

    assert_eq!(
        reg.close_parent(&parent, &user),
        Err(LifecycleError::ChildrenStillReferencing)
    );
    assert!(reg.close_child(&child_a, &parent, &user).is_ok());
    assert_eq!(reg.child_count_at(&parent), Ok(1));
    assert_eq!(
        reg.close_parent(&parent, &user),
        Err(LifecycleError::ChildrenStillReferencing)
    );
    assert!(reg.close_child(&child_b, &parent, &user).is_ok());
    assert_eq!(reg.child_count_at(&parent), Ok(0));
    assert_eq!(reg.value_at(&user), 5_000_000);
    assert!(reg.close_parent(&parent, &user).is_ok());
    assert_eq!(reg.value_at(&user), 6_000_000);
}

/// A reclaimed child cannot be closed twice, and the beneficiary is never
/// credited twice for one record.
#[test]
fn test_child_close_not_repeatable() {
    let mut reg = Registry::new(program_tag());
    let user = addr(1);
    let parent = addr(2);
    let child = addr(3);

    reg.create_parent(&parent, 1_000_000);
    reg.create_child(&child, &parent, 1_000_000);
    assert!(reg.close_child(&child, &parent, &user).is_ok());
    assert_eq!(reg.value_at(&user), 1_000_000);

    let again = reg.close_child(&child, &parent, &user);
    assert_eq!(again, Err(LifecycleError::IllegalAuthority));
    assert_eq!(reg.value_at(&user), 1_000_000);
}

/// A reclaimed parent cannot be closed twice.
#[test]
fn test_parent_close_not_repeatable() {
    let mut reg = Registry::new(program_tag());
    let user = addr(1);
    let parent = addr(2);

    reg.create_parent(&parent, 1_000_000);
    assert!(reg.close_parent(&parent, &user).is_ok());
    assert_eq!(
        reg.close_parent(&parent, &user),
        Err(LifecycleError::IllegalAuthority)
    );
    assert_eq!(reg.value_at(&user), 1_000_000);
}

/// Reclaiming a parent, then installing an attacker record at the same
/// address under another authority, never lets a stale reference through.
#[test]
fn test_dangling_reference_rejected() {
    let mut reg = Registry::new(program_tag());
    let user = addr(1);
    let parent = addr(2);
    let child = addr(3);

    reg.create_parent(&parent, 1_000_000);
    reg.create_child(&child, &parent, 1_000_000);
    assert!(reg.close_child(&child, &parent, &user).is_ok());
    assert!(reg.close_parent(&parent, &user).is_ok());

    // The freed address is reused by another authority with a fat count.
    let attacker_tag = addr(9);
    let malicious: Vec<u8> = 999u64.to_le_bytes().to_vec();
    reg.install_foreign(&parent, &attacker_tag, 1_000_000, malicious);

    // The old back-reference is re-validated from scratch and refused.
    let result = reg.close_child(&child, &parent, &user);
    assert_eq!(result, Err(LifecycleError::IllegalAuthority));
    assert_eq!(reg.value_at(&user), 2_000_000);
}

/// A child bound to one parent cannot be closed against a different live
/// parent: the stored back-reference is compared against the address
/// actually supplied.
#[test]
fn test_back_reference_mismatch_rejected() {
    let mut reg = Registry::new(program_tag());
    let user = addr(1);
    let parent_a = addr(2);
    let parent_b = addr(3);
    let child = addr(4);

    reg.create_parent(&parent_a, 1_000_000);
    reg.create_parent(&parent_b, 1_000_000);
    reg.create_child(&child, &parent_a, 1_000_000);

    let result = reg.close_child(&child, &parent_b, &user);
    assert_eq!(result, Err(LifecycleError::StaleOrForgedReference));
    assert_eq!(reg.child_count_at(&parent_a), Ok(1));
    assert_eq!(reg.child_count_at(&parent_b), Ok(0));
}

/// One address naming two roles of one call is refused outright.
#[test]
fn test_aliased_roles_rejected() {
    let mut reg = Registry::new(program_tag());
    let user = addr(1);
    let parent = addr(2);
    let child = addr(3);

    reg.create_parent(&parent, 1_000_000);
    reg.create_child(&child, &parent, 1_000_000);

    assert_eq!(
        reg.close_child(&parent, &parent, &user),
        Err(LifecycleError::AliasedRecords)
    );
    assert_eq!(
        reg.close_child(&child, &parent, &parent),
        Err(LifecycleError::AliasedRecords)
    );
    assert_eq!(
        reg.close_child(&child, &parent, &child),
        Err(LifecycleError::AliasedRecords)
    );
    assert_eq!(
        reg.close_parent(&parent, &parent),
        Err(LifecycleError::AliasedRecords)
    );
    // nothing was mutated
    assert_eq!(reg.child_count_at(&parent), Ok(1));
}

/// A record of another authority is never mutated: both roles of
/// `close_child` are custody-checked.
#[test]
fn test_foreign_records_rejected() {
    let mut reg = Registry::new(program_tag());
    let user = addr(1);
    let parent = addr(2);
    let child = addr(3);
    let foreign = addr(8);
    let attacker_tag = addr(9);

    reg.create_parent(&parent, 1_000_000);
    reg.create_child(&child, &parent, 1_000_000);
    reg.install_foreign(&foreign, &attacker_tag, 1_000_000, vec![0u8; 32]);

    // foreign record in the parent role
    assert_eq!(
        reg.close_child(&child, &foreign, &user),
        Err(LifecycleError::IllegalAuthority)
    );
    // foreign record in the child role
    assert_eq!(
        reg.close_child(&foreign, &parent, &user),
        Err(LifecycleError::IllegalAuthority)
    );
    // foreign record in the parent-close role
    assert_eq!(
        reg.close_parent(&foreign, &user),
        Err(LifecycleError::IllegalAuthority)
    );
}

/// A record with the wrong shape in the parent role is refused as a layout
/// error, not reinterpreted.
#[test]
fn test_wrong_shape_rejected() {
    let mut reg = Registry::new(program_tag());
    let user = addr(1);
    let parent = addr(2);
    let child = addr(3);

    reg.create_parent(&parent, 1_000_000);
    reg.create_child(&child, &parent, 1_000_000);

    // a child record named in the parent-close role has 32 bytes, not 8
    assert_eq!(
        reg.close_parent(&child, &user),
        Err(LifecycleError::InvalidLayout)
    );
    // a parent record named in the child role has 8 bytes, not 32
    assert_eq!(
        reg.close_child(&parent, &child, &user),
        Err(LifecycleError::InvalidLayout)
    );
}

/// An address that hosts nothing fails validation in every closing role.
#[test]
fn test_vacant_addresses_rejected() {
    let mut reg = Registry::new(program_tag());
    let user = addr(1);
    let parent = addr(2);
    let nowhere = addr(6);

    reg.create_parent(&parent, 1_000_000);
    assert_eq!(
        reg.close_parent(&nowhere, &user),
        Err(LifecycleError::IllegalAuthority)
    );
    assert_eq!(
        reg.close_child(&nowhere, &parent, &user),
        Err(LifecycleError::IllegalAuthority)
    );
    assert_eq!(reg.value_at(&nowhere), 0);
    assert_eq!(reg.content_len_at(&nowhere), 0);
}

/// The total attached value is conserved by closes and grows only by
/// creation, and every close credits the beneficiary exactly once.
#[test]
fn test_value_conserved() {
    let mut reg = Registry::new(program_tag());
    let user = addr(1);
    let parent = addr(2);
    let child = addr(3);

    reg.create_parent(&parent, 5_000_000);
    reg.create_child(&child, &parent, 3_000_000);
    assert_eq!(reg.value_at(&parent), 5_000_000);
    assert_eq!(reg.value_at(&child), 3_000_000);
    assert_eq!(reg.value_at(&user), 0);

    assert!(reg.close_child(&child, &parent, &user).is_ok());
    assert_eq!(reg.value_at(&child), 0);
    assert_eq!(reg.value_at(&user), 3_000_000);

    assert!(reg.close_parent(&parent, &user).is_ok());
    assert_eq!(reg.value_at(&parent), 0);
    assert_eq!(reg.value_at(&user), 8_000_000);
}
