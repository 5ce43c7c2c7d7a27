//! A stake pool that moves stake only through a forced even
//! redistribution, so no subset of validators can be drained or favoured.

use vstd::prelude::*;
use vstd::arithmetic::div_mod::lemma_fundamental_div_mod;
use vstd::bytes::{
    lemma_auto_spec_u64_to_from_le_bytes, spec_u64_from_le_bytes, spec_u64_to_le_bytes,
    u64_from_le_bytes, u64_to_le_bytes,
};
use vstd::slice::{slice_subrange, slice_to_vec};
use crate::record::{addr_eq, bytes_to_address, Address};

verus! {

/// Exact byte size of a stake pool record's content: the authority's
/// 32-byte identity followed by the little-endian global total.
pub const STAKE_POOL_CONTENT_LEN: usize = 40;

/// A stake pool: the authority allowed to move stake, and the global total
/// it maintains.  The total is the single source of truth; validators are
/// never adjusted one by one.
pub struct StakePool {
    pub authority: Address,
    pub total_stake: u64,
}

/// Why a stake operation was refused.
#[derive(Clone, Copy, Debug, PartialEq, Eq, Structural)]
pub enum StakeError {
    /// The caller did not sign the operation.
    MissingSignature,
    /// The caller is not the pool's authority.
    WrongAuthority,
    /// The new total would not fit, or exceeds what the pool holds.
    AmountOutOfRange,
    /// There is no validator to distribute stake over.
    NoValidators,
}

/// The stake a validator at position `i` holds after an even distribution
/// of `total` over `count` validators: everyone gets the quotient, and the
/// remainder is handed out one unit at a time from the front.
pub open spec fn even_share(total: u64, count: u64, i: int) -> u64
    recommends
        count > 0,
{
    ((total as int / count as int) + if i < total as int % count as int {
        1int
    } else {
        0int
    }) as u64
}

/// Verifies that the caller signed and is the pool's authority -- both
/// checks are mandatory before any stake moves.
pub fn enforce_authority(pool: &StakePool, caller: &Address, caller_signed: bool) -> (r: Result<
    (),
    StakeError,
>)
    ensures
        match r {
            Ok(()) => caller_signed && caller@ == pool.authority@,
            Err(e) => if !caller_signed {
                e == StakeError::MissingSignature
            } else {
                e == StakeError::WrongAuthority && caller@ != pool.authority@
            },
        },
{
    if !caller_signed {
        return Err(StakeError::MissingSignature);
    }
    if !addr_eq(caller, &pool.authority) {
        return Err(StakeError::WrongAuthority);
    }
    Ok(())
}

/// Forces an even distribution of `total` over the validators: afterwards
/// every validator holds the quotient, the first `total % count` one unit
/// more -- no two differ by more than one, whatever they held before.
pub fn rebalance(total: u64, validators: &mut Vec<u64>) -> (r: Result<(), StakeError>)
    ensures
        final(validators)@.len() == old(validators)@.len(),
        match r {
            Ok(()) => {
                &&& old(validators)@.len() > 0
                &&& forall|i: int|
                    0 <= i < final(validators)@.len() ==> final(validators)@[i] == even_share(
                        total,
                        old(validators)@.len() as u64,
                        i,
                    )
            },
            Err(e) => {
                &&& e == StakeError::NoValidators
                &&& old(validators)@.len() == 0
                &&& final(validators)@ == old(validators)@
            },
        },
{
    let n = validators.len();
    if n == 0 {
        return Err(StakeError::NoValidators);
    }
    let count = n as u64;
    let base = total / count;
    let rem = total % count;
    proof {
        lemma_fundamental_div_mod(total as int, count as int);
        assert(count as int * (base as int) + rem as int == total as int);
        if rem > 0 {
            assert(count as int * (base as int) >= base as int) by (nonlinear_arith)
                requires
                    count as int >= 1,
                    base as int >= 0,
            ;
            assert(base as int <= total as int - rem as int);
            assert(base < u64::MAX);
        }
    }
    let mut i: usize = 0;
    while i < n
        invariant
            i <= n,
            n >= 1,
            validators@.len() == n,
            count == n as u64,
            base == total as int / count as int,
            rem == total as int % count as int,
            rem > 0 ==> base < u64::MAX,
            forall|j: int| 0 <= j < i ==> validators@[j] == even_share(total, count, j),
        decreases n - i,
    {
        let extra: u64 = if (i as u64) < rem {
            1
        } else {
            0
        };
        validators[i] = base + extra;
        i = i + 1;
    }
    Ok(())
}

/// Raises the pool's global total by `amount` and forces an even
/// redistribution over the validators.  The caller must be the signing
/// authority; the global total is updated first and the distribution always
/// follows, so no subset of validators can be drained or favoured.
pub fn deposit(
    pool: &mut StakePool,
    caller: &Address,
    caller_signed: bool,
    amount: u64,
    validators: &mut Vec<u64>,
) -> (r: Result<(), StakeError>)
    ensures
        final(pool).authority == old(pool).authority,
        final(validators)@.len() == old(validators)@.len(),
        match r {
            Ok(()) => {
                &&& caller_signed && caller@ == old(pool).authority@
                &&& old(pool).total_stake + amount <= u64::MAX
                &&& old(validators)@.len() > 0
                &&& final(pool).total_stake == old(pool).total_stake + amount
                &&& forall|i: int|
                    0 <= i < final(validators)@.len() ==> final(validators)@[i] == even_share(
                        final(pool).total_stake,
                        old(validators)@.len() as u64,
                        i,
                    )
            },
            Err(e) => {
                &&& final(pool).total_stake == old(pool).total_stake
                &&& final(validators)@ == old(validators)@
                &&& if !caller_signed {
                    e == StakeError::MissingSignature
                } else if caller@ != old(pool).authority@ {
                    e == StakeError::WrongAuthority
                } else if old(pool).total_stake + amount > u64::MAX {
                    e == StakeError::AmountOutOfRange
                } else {
                    e == StakeError::NoValidators && old(validators)@.len() == 0
                }
            },
        },
{
    enforce_authority(pool, caller, caller_signed)?;
    let new_total = match pool.total_stake.checked_add(amount) {
        Some(t) => t,
        None => {
            return Err(StakeError::AmountOutOfRange);
        },
    };
    if validators.len() == 0 {
        return Err(StakeError::NoValidators);
    }
    pool.total_stake = new_total;
    let r = rebalance(new_total, validators);
    proof {
        assert(r is Ok);
    }
    Ok(())
}

/// Lowers the pool's global total by `amount` and forces an even
/// redistribution -- withdrawing never picks a validator, so the
/// distribution invariant survives every withdrawal.
pub fn withdraw(
    pool: &mut StakePool,
    caller: &Address,
    caller_signed: bool,
    amount: u64,
    validators: &mut Vec<u64>,
) -> (r: Result<(), StakeError>)
    ensures
        final(pool).authority == old(pool).authority,
        final(validators)@.len() == old(validators)@.len(),
        match r {
            Ok(()) => {
                &&& caller_signed && caller@ == old(pool).authority@
                &&& amount <= old(pool).total_stake
                &&& old(validators)@.len() > 0
                &&& final(pool).total_stake == old(pool).total_stake - amount
                &&& forall|i: int|
                    0 <= i < final(validators)@.len() ==> final(validators)@[i] == even_share(
                        final(pool).total_stake,
                        old(validators)@.len() as u64,
                        i,
                    )
            },
            Err(e) => {
                &&& final(pool).total_stake == old(pool).total_stake
                &&& final(validators)@ == old(validators)@
                &&& if !caller_signed {
                    e == StakeError::MissingSignature
                } else if caller@ != old(pool).authority@ {
                    e == StakeError::WrongAuthority
                } else if amount > old(pool).total_stake {
                    e == StakeError::AmountOutOfRange
                } else {
                    e == StakeError::NoValidators && old(validators)@.len() == 0
                }
            },
        },
{
    enforce_authority(pool, caller, caller_signed)?;
    let new_total = match pool.total_stake.checked_sub(amount) {
        Some(t) => t,
        None => {
            return Err(StakeError::AmountOutOfRange);
        },
    };
    if validators.len() == 0 {
        return Err(StakeError::NoValidators);
    }
    pool.total_stake = new_total;
    let r = rebalance(new_total, validators);
    proof {
        assert(r is Ok);
    }
    Ok(())
}

/// Reads a stake pool record out of its raw content region, available only
/// when the region has exactly the pool shape.
pub fn stake_pool_from_bytes(data: &Vec<u8>) -> (r: Option<StakePool>)
    ensures
        match r {
            Some(p) => {
                &&& data@.len() == 40
                &&& p.authority@ == data@.subrange(0, 32)
                &&& p.total_stake == spec_u64_from_le_bytes(data@.subrange(32, 40))
            },
            None => data@.len() != 40,
        },
{
    if data.len() != STAKE_POOL_CONTENT_LEN {
        return None;
    }
    let s = data.as_slice();
    let auth_bytes = slice_to_vec(slice_subrange(s, 0, 32));
    let authority = bytes_to_address(&auth_bytes);
    let total_stake = u64_from_le_bytes(slice_subrange(s, 32, 40));
    Some(StakePool { authority, total_stake })
}

/// Writes a stake pool record back to its raw content region; reading the
/// region recovers the record exactly.
pub fn stake_pool_to_bytes(pool: &StakePool) -> (r: Vec<u8>)
    ensures
        r@.len() == 40,
        r@.subrange(0, 32) == pool.authority@,
        spec_u64_from_le_bytes(r@.subrange(32, 40)) == pool.total_stake,
{
    proof {
        lemma_auto_spec_u64_to_from_le_bytes();
    }
    let mut r = slice_to_vec(pool.authority.as_slice());
    let mut t = u64_to_le_bytes(pool.total_stake);
    let ghost tg = t@;
    r.append(&mut t);
    proof {
        assert(r@.subrange(0, 32) =~= pool.authority@);
        assert(r@.subrange(32, 40) =~= tg);
        assert(tg =~= spec_u64_to_le_bytes(pool.total_stake));
    }
    r
}

} // verus!
