//! A time-windowed deposit pool with strict window boundaries, and the
//! validated byte views of its records.

use vstd::prelude::*;
use vstd::bytes::{
    lemma_auto_spec_u64_to_from_le_bytes, spec_u64_from_le_bytes, spec_u64_to_le_bytes,
    u64_from_le_bytes, u64_to_le_bytes,
};
use vstd::slice::slice_subrange;

verus! {

/// Scale factor applied to a user's deposit when a claim is paid out.
pub const REWARD_RATE: u64 = 1000;

/// A time-windowed deposit pool.  Deposits are accepted inside the half-open
/// window `[start_time, end_time)`; claims open at `claim_time`.  Keeping the
/// deposit bound strict means that a pool configured with
/// `end_time == claim_time` never accepts a deposit and a claim at the same
/// instant.
pub struct Pool {
    pub start_time: i64,
    pub end_time: i64,
    pub claim_time: i64,
    pub total_deposited: u64,
}

/// One participant's standing in a pool.
pub struct User {
    pub deposited: u64,
    pub claimed: bool,
}

/// Why a pool operation was refused.
#[derive(Clone, Copy, Debug, PartialEq, Eq, Structural)]
pub enum PoolError {
    /// The current time lies outside the deposit window.
    DepositClosed,
    /// The claim window has not opened yet.
    ClaimNotOpen,
    /// This user has already claimed once.
    AlreadyClaimed,
}

/// Addition that tops out at the largest representable value.
pub open spec fn saturating_add_spec(a: u64, b: u64) -> u64 {
    if a + b > u64::MAX {
        u64::MAX
    } else {
        (a + b) as u64
    }
}

/// The reward paid for a claim: the user's deposit scaled by
/// [`REWARD_RATE`] (topping out rather than overflowing) and divided by the
/// pool's total deposits, taken as at least one.
pub open spec fn reward_spec(deposited: u64, total: u64) -> u64 {
    let scaled: u64 = if deposited * REWARD_RATE > u64::MAX {
        u64::MAX
    } else {
        (deposited * REWARD_RATE) as u64
    };
    let divisor: u64 = if total == 0 {
        1u64
    } else {
        total
    };
    (scaled as int / divisor as int) as u64
}

/// Records a deposit of `amount` at time `now`.  It is accepted exactly
/// inside the half-open window `[start_time, end_time)`; at `end_time`
/// itself it is already refused.  Amounts accumulate with saturating
/// arithmetic.
pub fn deposit(pool: &mut Pool, user: &mut User, amount: u64, now: i64) -> (r: Result<
    (),
    PoolError,
>)
    ensures
        final(pool).start_time == old(pool).start_time,
        final(pool).end_time == old(pool).end_time,
        final(pool).claim_time == old(pool).claim_time,
        final(user).claimed == old(user).claimed,
        match r {
            Ok(()) => {
                &&& old(pool).start_time <= now < old(pool).end_time
                &&& final(user).deposited == saturating_add_spec(old(user).deposited, amount)
                &&& final(pool).total_deposited == saturating_add_spec(
                    old(pool).total_deposited,
                    amount,
                )
            },
            Err(e) => {
                &&& e == PoolError::DepositClosed
                &&& !(old(pool).start_time <= now < old(pool).end_time)
                &&& final(user).deposited == old(user).deposited
                &&& final(pool).total_deposited == old(pool).total_deposited
            },
        },
{
    if now < pool.start_time || now >= pool.end_time {
        return Err(PoolError::DepositClosed);
    }
    user.deposited = user.deposited.saturating_add(amount);
    pool.total_deposited = pool.total_deposited.saturating_add(amount);
    Ok(())
}

/// Pays out a claim at time `now`: allowed from `claim_time` on, at most
/// once per user.  The deposit window's strict upper bound is what keeps a
/// same-instant deposit-and-claim out of a pool whose windows touch.
pub fn claim(pool: &Pool, user: &mut User, now: i64) -> (r: Result<u64, PoolError>)
    ensures
        final(user).deposited == old(user).deposited,
        match r {
            Ok(v) => {
                &&& now >= pool.claim_time
                &&& !old(user).claimed
                &&& final(user).claimed
                &&& v == reward_spec(old(user).deposited, pool.total_deposited)
            },
            Err(e) => {
                &&& final(user).claimed == old(user).claimed
                &&& if now < pool.claim_time {
                    e == PoolError::ClaimNotOpen
                } else {
                    e == PoolError::AlreadyClaimed && old(user).claimed
                }
            },
        },
{
    if now < pool.claim_time {
        return Err(PoolError::ClaimNotOpen);
    }
    if user.claimed {
        return Err(PoolError::AlreadyClaimed);
    }
    let scaled = match user.deposited.checked_mul(REWARD_RATE) {
        Some(s) => s,
        None => u64::MAX,
    };
    let divisor = if pool.total_deposited == 0 {
        1
    } else {
        pool.total_deposited
    };
    let reward = scaled / divisor;
    user.claimed = true;
    Ok(reward)
}

/// Exact byte size of a pool record's content: three signed times and a
/// total, little-endian.
pub const POOL_CONTENT_LEN: usize = 32;

/// Exact byte size of a user record's content: a deposit and a claimed
/// flag.
pub const USER_CONTENT_LEN: usize = 9;

/// A signed time read from eight little-endian bytes.
pub open spec fn time_from_le(s: Seq<u8>) -> i64 {
    spec_u64_from_le_bytes(s) as i64
}

/// The typed view of a pool record's content, available only when the
/// region has exactly the pool shape.
pub open spec fn pool_from_bytes_spec(data: Seq<u8>) -> Option<Pool> {
    if data.len() != 32 {
        None
    } else {
        Some(
            Pool {
                start_time: time_from_le(data.subrange(0, 8)),
                end_time: time_from_le(data.subrange(8, 16)),
                claim_time: time_from_le(data.subrange(16, 24)),
                total_deposited: spec_u64_from_le_bytes(data.subrange(24, 32)),
            },
        )
    }
}

/// Reads a pool record out of its raw content region.
pub fn pool_from_bytes(data: &Vec<u8>) -> (r: Option<Pool>)
    ensures
        match r {
            Some(p) => pool_from_bytes_spec(data@) == Some(p),
            None => data@.len() != 32,
        },
{
    if data.len() != POOL_CONTENT_LEN {
        return None;
    }
    let s = data.as_slice();
    let start_time = u64_from_le_bytes(slice_subrange(s, 0, 8)) as i64;
    let end_time = u64_from_le_bytes(slice_subrange(s, 8, 16)) as i64;
    let claim_time = u64_from_le_bytes(slice_subrange(s, 16, 24)) as i64;
    let total_deposited = u64_from_le_bytes(slice_subrange(s, 24, 32));
    Some(Pool { start_time, end_time, claim_time, total_deposited })
}

/// Writes a pool record back to its raw content region; reading the region
/// recovers the record exactly.
pub fn pool_to_bytes(pool: &Pool) -> (r: Vec<u8>)
    ensures
        r@.len() == 32,
        pool_from_bytes_spec(r@) == Some(*pool),
{
    proof {
        lemma_auto_spec_u64_to_from_le_bytes();
    }
    let mut r = u64_to_le_bytes(pool.start_time as u64);
    let mut e = u64_to_le_bytes(pool.end_time as u64);
    let mut c = u64_to_le_bytes(pool.claim_time as u64);
    let mut t = u64_to_le_bytes(pool.total_deposited);
    let ghost eg = e@;
    let ghost cg = c@;
    let ghost tg = t@;
    r.append(&mut e);
    r.append(&mut c);
    r.append(&mut t);
    proof {
        assert(r@.subrange(0, 8) =~= spec_u64_to_le_bytes(pool.start_time as u64));
        assert(r@.subrange(8, 16) =~= eg);
        assert(r@.subrange(16, 24) =~= cg);
        assert(r@.subrange(24, 32) =~= tg);
        let st: i64 = pool.start_time;
        let et: i64 = pool.end_time;
        let ct: i64 = pool.claim_time;
        assert(st as u64 as i64 == st) by (bit_vector);
        assert(et as u64 as i64 == et) by (bit_vector);
        assert(ct as u64 as i64 == ct) by (bit_vector);
    }
    r
}

/// The typed view of a user record's content, available only when the
/// region has exactly the user shape.  Any nonzero flag byte counts as
/// claimed.
pub open spec fn user_from_bytes_spec(data: Seq<u8>) -> Option<User> {
    if data.len() != 9 {
        None
    } else {
        Some(
            User {
                deposited: spec_u64_from_le_bytes(data.subrange(0, 8)),
                claimed: data[8] != 0,
            },
        )
    }
}

/// Reads a user record out of its raw content region.
pub fn user_from_bytes(data: &Vec<u8>) -> (r: Option<User>)
    ensures
        match r {
            Some(u) => user_from_bytes_spec(data@) == Some(u),
            None => data@.len() != 9,
        },
{
    if data.len() != USER_CONTENT_LEN {
        return None;
    }
    let s = data.as_slice();
    let deposited = u64_from_le_bytes(slice_subrange(s, 0, 8));
    let claimed = data[8] != 0;
    Some(User { deposited, claimed })
}

/// Writes a user record back to its raw content region; reading the region
/// recovers the record exactly.
pub fn user_to_bytes(user: &User) -> (r: Vec<u8>)
    ensures
        r@.len() == 9,
        user_from_bytes_spec(r@) == Some(*user),
{
    proof {
        lemma_auto_spec_u64_to_from_le_bytes();
    }
    let mut r = u64_to_le_bytes(user.deposited);
    let flag: u8 = if user.claimed {
        1
    } else {
        0
    };
    r.push(flag);
    proof {
        assert(r@.subrange(0, 8) =~= spec_u64_to_le_bytes(user.deposited));
        assert(r@[8] == flag);
    }
    r
}

} // verus!
