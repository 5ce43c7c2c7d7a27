//! The mathematical model of the record space: records by address, the
//! reference-count invariant, and the exact outcome and post-state of every
//! operation of the close protocol.

use vstd::prelude::*;
use vstd::bytes::{spec_u64_from_le_bytes, spec_u64_to_le_bytes};
use crate::errors::LifecycleError;
use crate::record::{neutral_tag, vacant_record, RecordModel};

verus! {

/// The model of a whole record space: the records currently hosted, keyed by
/// their 32-byte address.  An address outside the domain hosts nothing.
pub type RecordMap = Map<Seq<u8>, RecordModel>;

/// The record hosted at `a`, or the vacant record when the address hosts
/// nothing.  A reclaimed record and a never-created one look the same.
pub open spec fn record_at(m: RecordMap, a: Seq<u8>) -> RecordModel {
    if m.dom().contains(a) {
        m[a]
    } else {
        vacant_record()
    }
}

/// A record that counts as a parent under authority `tag`: held in that
/// authority's custody, with exactly the parent-shaped content.
pub open spec fn is_parent(r: RecordModel, tag: Seq<u8>) -> bool {
    r.custody == tag && r.data.len() == 8
}

/// A record that counts as a child under authority `tag`: held in that
/// authority's custody, with exactly the child-shaped content (the 32-byte
/// address of its parent).
pub open spec fn is_child(r: RecordModel, tag: Seq<u8>) -> bool {
    r.custody == tag && r.data.len() == 32
}

/// The count a parent record declares: its content read as a little-endian
/// `u64`.
pub open spec fn declared_count(r: RecordModel) -> u64
    recommends
        r.data.len() == 8,
{
    spec_u64_from_le_bytes(r.data)
}

/// The addresses of the children currently bound to the parent at `p`: child
/// records under authority `tag` whose stored back-reference is `p`.
pub open spec fn bound_children(m: RecordMap, p: Seq<u8>, tag: Seq<u8>) -> Set<Seq<u8>> {
    Set::new(|a: Seq<u8>| m.dom().contains(a) && is_child(m[a], tag) && m[a].data == p)
}

/// The reference-count invariant: every parent record's declared count equals
/// the number of children actually bound to it.
pub open spec fn counts_consistent(m: RecordMap, tag: Seq<u8>) -> bool {
    &&& m.dom().finite()
    &&& forall|p: Seq<u8>|
        m.dom().contains(p) && is_parent(#[trigger] m[p], tag) ==> {
            &&& bound_children(m, p, tag).finite()
            &&& declared_count(m[p]) == bound_children(m, p, tag).len()
        }
}

/// No dangling references: every child's stored back-reference names an
/// address that currently hosts a parent record of the same authority.
pub open spec fn no_dangling(m: RecordMap, tag: Seq<u8>) -> bool {
    forall|c: Seq<u8>|
        m.dom().contains(c) && is_child(#[trigger] m[c], tag) ==> {
            &&& m.dom().contains(m[c].data)
            &&& is_parent(m[m[c].data], tag)
        }
}

/// The global lifecycle invariant preserved by every registry operation.
pub open spec fn inv(m: RecordMap, tag: Seq<u8>) -> bool {
    counts_consistent(m, tag) && no_dangling(m, tag)
}

/// The validation chain of `close_child`, applied in order; `None` means the
/// operation is allowed to mutate.  The checks re-validate everything from
/// scratch: the parent's custody and liveness, the child's custody and
/// liveness, both layouts, the child's back-reference against the parent
/// address actually supplied, and the count about to be decremented.
pub open spec fn close_child_outcome(
    m: RecordMap,
    child: Seq<u8>,
    parent: Seq<u8>,
    beneficiary: Seq<u8>,
    tag: Seq<u8>,
) -> Option<LifecycleError> {
    let pr = record_at(m, parent);
    let cr = record_at(m, child);
    if child == parent || child == beneficiary || parent == beneficiary {
        Some(LifecycleError::AliasedRecords)
    } else if pr.custody != tag {
        Some(LifecycleError::IllegalAuthority)
    } else if pr.value == 0 {
        Some(LifecycleError::StaleOrForgedReference)
    } else if pr.data.len() != 8 {
        Some(LifecycleError::InvalidLayout)
    } else if cr.custody != tag {
        Some(LifecycleError::IllegalAuthority)
    } else if cr.value == 0 {
        Some(LifecycleError::StaleOrForgedReference)
    } else if cr.data.len() != 32 {
        Some(LifecycleError::InvalidLayout)
    } else if cr.data != parent {
        Some(LifecycleError::StaleOrForgedReference)
    } else if spec_u64_from_le_bytes(pr.data) == 0 {
        Some(LifecycleError::InvariantViolation)
    } else {
        None
    }
}

/// The record space after a successful `close_child`: the parent's count is
/// one lower, the child is reclaimed in one atomic step, and its whole
/// attached value has moved to the beneficiary.
pub open spec fn close_child_post(
    m: RecordMap,
    child: Seq<u8>,
    parent: Seq<u8>,
    beneficiary: Seq<u8>,
) -> RecordMap {
    let pr = record_at(m, parent);
    let cr = record_at(m, child);
    let br = record_at(m, beneficiary);
    m.insert(
        parent,
        RecordModel {
            value: pr.value,
            custody: pr.custody,
            data: spec_u64_to_le_bytes((spec_u64_from_le_bytes(pr.data) - 1) as u64),
        },
    ).insert(child, vacant_record()).insert(
        beneficiary,
        RecordModel { value: (br.value + cr.value) as u64, custody: br.custody, data: br.data },
    )
}

/// The validation chain of `close_parent`; `None` means the operation is
/// allowed to mutate.  The load-bearing check is the last one: a parent whose
/// declared count is nonzero is never reclaimed.
pub open spec fn close_parent_outcome(
    m: RecordMap,
    parent: Seq<u8>,
    beneficiary: Seq<u8>,
    tag: Seq<u8>,
) -> Option<LifecycleError> {
    let pr = record_at(m, parent);
    if parent == beneficiary {
        Some(LifecycleError::AliasedRecords)
    } else if pr.custody != tag {
        Some(LifecycleError::IllegalAuthority)
    } else if pr.data.len() != 8 {
        Some(LifecycleError::InvalidLayout)
    } else if spec_u64_from_le_bytes(pr.data) != 0 {
        Some(LifecycleError::ChildrenStillReferencing)
    } else {
        None
    }
}

/// The record space after a successful `close_parent`: the parent is
/// reclaimed in one atomic step and its whole attached value has moved to the
/// beneficiary.
pub open spec fn close_parent_post(
    m: RecordMap,
    parent: Seq<u8>,
    beneficiary: Seq<u8>,
) -> RecordMap {
    let pr = record_at(m, parent);
    let br = record_at(m, beneficiary);
    m.insert(parent, vacant_record()).insert(
        beneficiary,
        RecordModel { value: (br.value + pr.value) as u64, custody: br.custody, data: br.data },
    )
}

/// The record space after a well-formed parent creation: a fresh parent with
/// a declared count of zero.
pub open spec fn create_parent_post(
    m: RecordMap,
    addr: Seq<u8>,
    tag: Seq<u8>,
    value: u64,
) -> RecordMap {
    m.insert(addr, RecordModel { value, custody: tag, data: spec_u64_to_le_bytes(0) })
}

/// The record space after a well-formed child creation: a fresh child bound
/// to `parent`, whose declared count grows by one in the same step.
pub open spec fn create_child_post(
    m: RecordMap,
    child: Seq<u8>,
    parent: Seq<u8>,
    tag: Seq<u8>,
    value: u64,
) -> RecordMap {
    let pr = record_at(m, parent);
    m.insert(
        parent,
        RecordModel {
            value: pr.value,
            custody: pr.custody,
            data: spec_u64_to_le_bytes((spec_u64_from_le_bytes(pr.data) + 1) as u64),
        },
    ).insert(child, RecordModel { value, custody: tag, data: parent })
}

} // verus!
