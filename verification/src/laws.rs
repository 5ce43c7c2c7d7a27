//! The laws of the close protocol, proved over the model: every operation
//! preserves the reference-count invariant, and the refusal lemmas close
//! the premature-closure, underflow, dangling-reference, aliasing and
//! double-reclamation hazards one by one.

use vstd::prelude::*;
use vstd::bytes::lemma_auto_spec_u64_to_from_le_bytes;
use vstd::bytes::spec_u64_from_le_bytes;
use crate::model::{
    bound_children, close_child_outcome, close_child_post, close_parent_outcome,
    close_parent_post, create_child_post, create_parent_post, declared_count, inv, is_child,
    is_parent, record_at, RecordMap,
};
use crate::errors::LifecycleError;
use crate::record::{neutral_tag, vacant_record, RecordModel};

verus! {

/// Closing a child preserves the reference-count invariant: the parent's
/// declared count drops by one exactly as the set of children bound to it
/// loses the reclaimed child, every other parent's count and children are
/// untouched, and no reference is left dangling.
pub proof fn close_child_preserves_inv(
    m: RecordMap,
    child: Seq<u8>,
    parent: Seq<u8>,
    beneficiary: Seq<u8>,
    tag: Seq<u8>,
)
    requires
        inv(m, tag),
        tag != neutral_tag(),
        close_child_outcome(m, child, parent, beneficiary, tag) is None,
    ensures
        inv(close_child_post(m, child, parent, beneficiary), tag),
{
    lemma_auto_spec_u64_to_from_le_bytes();
    let m2 = close_child_post(m, child, parent, beneficiary);
    let pr = record_at(m, parent);
    let cr = record_at(m, child);
    let count = spec_u64_from_le_bytes(pr.data);
    assert(m.dom().contains(parent)) by {
        if !m.dom().contains(parent) {
            assert(record_at(m, parent) == vacant_record());
        }
    }
    assert(m.dom().contains(child)) by {
        if !m.dom().contains(child) {
            assert(record_at(m, child) == vacant_record());
        }
    }
    assert(m2.dom() =~= m.dom().insert(beneficiary));
    assert(m2.dom().finite());
    // The child was counted for its parent before the call.
    assert(bound_children(m, parent, tag).contains(child));
    assert(declared_count(m2[parent]) == count - 1);
    // Counts stay consistent at every parent of the new record space.
    assert forall|p2: Seq<u8>|
        m2.dom().contains(p2) && is_parent(#[trigger] m2[p2], tag) implies {
        &&& bound_children(m2, p2, tag).finite()
        &&& declared_count(m2[p2]) == bound_children(m2, p2, tag).len()
    } by {
        if p2 == parent {
            assert(bound_children(m2, parent, tag) =~= bound_children(m, parent, tag).remove(
                child,
            ));
            assert(bound_children(m2, parent, tag).len() == bound_children(m, parent, tag).len()
                - 1);
        } else {
            assert(p2 != child);
            assert(m2[p2] == if p2 == beneficiary {
                m2[beneficiary]
            } else {
                m[p2]
            });
            assert(is_parent(m[p2], tag));
            assert(declared_count(m2[p2]) == declared_count(m[p2]));
            assert(bound_children(m2, p2, tag) =~= bound_children(m, p2, tag));
        }
    }
    // No reference dangles afterwards.
    assert forall|c2: Seq<u8>|
        m2.dom().contains(c2) && is_child(#[trigger] m2[c2], tag) implies {
        &&& m2.dom().contains(m2[c2].data)
        &&& is_parent(m2[m2[c2].data], tag)
    } by {
        assert(c2 != child);
        if c2 == parent {
            assert(!is_child(m2[parent], tag));
        } else {
            assert(is_child(m[c2], tag) && m2[c2].data == m[c2].data);
            let q = m[c2].data;
            assert(m.dom().contains(q) && is_parent(m[q], tag));
            assert(q != child) by {
                if q == child {
                    assert(is_child(m[child], tag) && is_parent(m[child], tag));
                }
            }
            assert(is_parent(m2[q], tag));
        }
    }
}

/// Closing a parent preserves the invariant: the check that its declared
/// count is zero guarantees, through the invariant itself, that no child was
/// still bound to it, so reclaiming it can leave nothing dangling.
pub proof fn close_parent_preserves_inv(
    m: RecordMap,
    parent: Seq<u8>,
    beneficiary: Seq<u8>,
    tag: Seq<u8>,
)
    requires
        inv(m, tag),
        tag != neutral_tag(),
        close_parent_outcome(m, parent, beneficiary, tag) is None,
    ensures
        inv(close_parent_post(m, parent, beneficiary), tag),
{
    let m2 = close_parent_post(m, parent, beneficiary);
    let pr = record_at(m, parent);
    assert(m.dom().contains(parent)) by {
        if !m.dom().contains(parent) {
            assert(record_at(m, parent) == vacant_record());
        }
    }
    // The invariant turns the zero declared count into an empty children set.
    assert(bound_children(m, parent, tag).len() == 0);
    assert forall|a: Seq<u8>| !(#[trigger] bound_children(m, parent, tag).contains(a)) by {
        if bound_children(m, parent, tag).contains(a) {
            assert(bound_children(m, parent, tag).remove(a).len() == bound_children(
                m,
                parent,
                tag,
            ).len() - 1);
        }
    }
    assert(m2.dom() =~= m.dom().insert(beneficiary));
    assert forall|p2: Seq<u8>|
        m2.dom().contains(p2) && is_parent(#[trigger] m2[p2], tag) implies {
        &&& bound_children(m2, p2, tag).finite()
        &&& declared_count(m2[p2]) == bound_children(m2, p2, tag).len()
    } by {
        assert(p2 != parent);
        assert(is_parent(m[p2], tag));
        assert(declared_count(m2[p2]) == declared_count(m[p2]));
        assert(bound_children(m2, p2, tag) =~= bound_children(m, p2, tag));
    }
    assert forall|c2: Seq<u8>|
        m2.dom().contains(c2) && is_child(#[trigger] m2[c2], tag) implies {
        &&& m2.dom().contains(m2[c2].data)
        &&& is_parent(m2[m2[c2].data], tag)
    } by {
        assert(c2 != parent);
        assert(is_child(m[c2], tag) && m2[c2].data == m[c2].data);
        let q = m[c2].data;
        assert(m.dom().contains(q) && is_parent(m[q], tag));
        assert(q != parent) by {
            if q == parent {
                assert(bound_children(m, parent, tag).contains(c2));
            }
        }
        assert(is_parent(m2[q], tag));
    }
}

/// Creating a parent at a vacant address preserves the invariant: since no
/// reference may dangle, no child can already be bound to an address that
/// hosted nothing, so the new parent's declared count of zero is exact.
pub proof fn create_parent_preserves_inv(
    m: RecordMap,
    addr: Seq<u8>,
    tag: Seq<u8>,
    value: u64,
)
    requires
        inv(m, tag),
        tag != neutral_tag(),
        record_at(m, addr) == vacant_record(),
    ensures
        inv(create_parent_post(m, addr, tag, value), tag),
{
    lemma_auto_spec_u64_to_from_le_bytes();
    let m2 = create_parent_post(m, addr, tag, value);
    assert(m2.dom() =~= m.dom().insert(addr));
    assert(bound_children(m2, addr, tag) =~= Set::<Seq<u8>>::empty()) by {
        assert forall|a: Seq<u8>| !(#[trigger] bound_children(m2, addr, tag).contains(a)) by {
            if bound_children(m2, addr, tag).contains(a) {
                assert(a != addr);
                assert(is_child(m[a], tag));
                assert(is_parent(m[addr], tag) || !m.dom().contains(addr));
            }
        }
    }
    assert forall|p2: Seq<u8>|
        m2.dom().contains(p2) && is_parent(#[trigger] m2[p2], tag) implies {
        &&& bound_children(m2, p2, tag).finite()
        &&& declared_count(m2[p2]) == bound_children(m2, p2, tag).len()
    } by {
        if p2 == addr {
            assert(declared_count(m2[addr]) == 0);
            assert(bound_children(m2, addr, tag).len() == 0);
        } else {
            assert(is_parent(m[p2], tag));
            assert(bound_children(m2, p2, tag) =~= bound_children(m, p2, tag));
        }
    }
    assert forall|c2: Seq<u8>|
        m2.dom().contains(c2) && is_child(#[trigger] m2[c2], tag) implies {
        &&& m2.dom().contains(m2[c2].data)
        &&& is_parent(m2[m2[c2].data], tag)
    } by {
        assert(c2 != addr);
        let q = m[c2].data;
        assert(m.dom().contains(q) && is_parent(m[q], tag));
        assert(q != addr) by {
            if q == addr {
                assert(is_parent(record_at(m, addr), tag));
            }
        }
        assert(is_parent(m2[q], tag));
    }
}

/// Creating a child bound to a live parent, while raising that parent's
/// declared count by one in the same step, preserves the invariant.
pub proof fn create_child_preserves_inv(
    m: RecordMap,
    child: Seq<u8>,
    parent: Seq<u8>,
    tag: Seq<u8>,
    value: u64,
)
    requires
        inv(m, tag),
        tag != neutral_tag(),
        parent.len() == 32,
        record_at(m, child) == vacant_record(),
        is_parent(record_at(m, parent), tag),
        declared_count(record_at(m, parent)) < u64::MAX,
    ensures
        inv(create_child_post(m, child, parent, tag, value), tag),
{
    lemma_auto_spec_u64_to_from_le_bytes();
    let m2 = create_child_post(m, child, parent, tag, value);
    let pr = record_at(m, parent);
    assert(m.dom().contains(parent)) by {
        if !m.dom().contains(parent) {
            assert(record_at(m, parent) == vacant_record());
        }
    }
    assert(child != parent);
    assert(m2.dom() =~= m.dom().insert(child));
    assert(!bound_children(m, parent, tag).contains(child));
    assert forall|p2: Seq<u8>|
        m2.dom().contains(p2) && is_parent(#[trigger] m2[p2], tag) implies {
        &&& bound_children(m2, p2, tag).finite()
        &&& declared_count(m2[p2]) == bound_children(m2, p2, tag).len()
    } by {
        if p2 == parent {
            assert(bound_children(m2, parent, tag) =~= bound_children(m, parent, tag).insert(
                child,
            ));
            assert(bound_children(m2, parent, tag).len() == bound_children(m, parent, tag).len()
                + 1);
            assert(declared_count(m2[parent]) == declared_count(pr) + 1);
        } else {
            assert(p2 != child);
            assert(is_parent(m[p2], tag));
            assert(bound_children(m2, p2, tag) =~= bound_children(m, p2, tag));
        }
    }
    assert forall|c2: Seq<u8>|
        m2.dom().contains(c2) && is_child(#[trigger] m2[c2], tag) implies {
        &&& m2.dom().contains(m2[c2].data)
        &&& is_parent(m2[m2[c2].data], tag)
    } by {
        if c2 == child {
            assert(m2[child].data == parent);
            assert(is_parent(m2[parent], tag));
        } else {
            assert(c2 != parent);
            let q = m[c2].data;
            assert(m.dom().contains(q) && is_parent(m[q], tag));
            assert(q != child) by {
                if q == child {
                    assert(is_parent(record_at(m, child), tag));
                }
            }
            assert(is_parent(m2[q], tag));
        }
    }
}

/// A record installed at a vacant address by any other authority is never
/// taken for one of this authority's parents or children, so it preserves
/// the invariant no matter what content or value it carries.
pub proof fn install_preserves_inv(
    m: RecordMap,
    addr: Seq<u8>,
    custody: Seq<u8>,
    value: u64,
    data: Seq<u8>,
    tag: Seq<u8>,
)
    requires
        inv(m, tag),
        tag != neutral_tag(),
        record_at(m, addr) == vacant_record(),
        custody != tag,
    ensures
        inv(
            m.insert(addr, crate::record::RecordModel { value, custody, data }),
            tag,
        ),
{
    let m2 = m.insert(addr, crate::record::RecordModel { value, custody, data });
    assert(m2.dom() =~= m.dom().insert(addr));
    assert(!is_parent(m2[addr], tag) && !is_child(m2[addr], tag));
    assert forall|p2: Seq<u8>|
        m2.dom().contains(p2) && is_parent(#[trigger] m2[p2], tag) implies {
        &&& bound_children(m2, p2, tag).finite()
        &&& declared_count(m2[p2]) == bound_children(m2, p2, tag).len()
    } by {
        assert(p2 != addr);
        assert(is_parent(m[p2], tag));
        assert(bound_children(m2, p2, tag) =~= bound_children(m, p2, tag));
    }
    assert forall|c2: Seq<u8>|
        m2.dom().contains(c2) && is_child(#[trigger] m2[c2], tag) implies {
        &&& m2.dom().contains(m2[c2].data)
        &&& is_parent(m2[m2[c2].data], tag)
    } by {
        assert(c2 != addr);
        let q = m[c2].data;
        assert(m.dom().contains(q) && is_parent(m[q], tag));
        assert(q != addr) by {
            if q == addr {
                assert(is_parent(record_at(m, addr), tag));
            }
        }
        assert(is_parent(m2[q], tag));
    }
}

/// A parent is never closed early: under the invariant, `close_parent` on a
/// parent record succeeds exactly when no child is bound to it any more, and
/// is otherwise refused with `ChildrenStillReferencing`, for every nonzero
/// number of bound children.
pub proof fn parent_with_children_never_closes(
    m: RecordMap,
    parent: Seq<u8>,
    beneficiary: Seq<u8>,
    tag: Seq<u8>,
)
    requires
        inv(m, tag),
        tag != neutral_tag(),
        parent != beneficiary,
        is_parent(record_at(m, parent), tag),
    ensures
        close_parent_outcome(m, parent, beneficiary, tag) == if bound_children(
            m,
            parent,
            tag,
        ).len() == 0 {
            Option::<LifecycleError>::None
        } else {
            Option::<LifecycleError>::Some(LifecycleError::ChildrenStillReferencing)
        },
{
    assert(m.dom().contains(parent)) by {
        if !m.dom().contains(parent) {
            assert(record_at(m, parent) == vacant_record());
        }
    }
    assert(declared_count(m[parent]) == bound_children(m, parent, tag).len());
}

/// A count never underflows: under the invariant, once no child at all is
/// bound to a parent, every further `close_child` naming it is refused -- the
/// decrement is never applied to a zero count, and the count never wraps.
pub proof fn count_cannot_underflow(
    m: RecordMap,
    child: Seq<u8>,
    parent: Seq<u8>,
    beneficiary: Seq<u8>,
    tag: Seq<u8>,
)
    requires
        inv(m, tag),
        tag != neutral_tag(),
        bound_children(m, parent, tag).len() == 0,
    ensures
        close_child_outcome(m, child, parent, beneficiary, tag) is Some,
{
    if close_child_outcome(m, child, parent, beneficiary, tag) is None {
        let pr = record_at(m, parent);
        let cr = record_at(m, child);
        assert(m.dom().contains(parent)) by {
            if !m.dom().contains(parent) {
                assert(record_at(m, parent) == vacant_record());
            }
        }
        assert(m.dom().contains(child)) by {
            if !m.dom().contains(child) {
                assert(record_at(m, child) == vacant_record());
            }
        }
        assert(bound_children(m, parent, tag).contains(child));
        assert(bound_children(m, parent, tag).remove(child).len() == bound_children(
            m,
            parent,
            tag,
        ).len() - 1);
    }
}

/// A dangling reference is never honoured: once a parent has been reclaimed
/// and any other authority has installed a record at the freed address --
/// with whatever value and content it likes -- a `close_child` naming that
/// address is refused with `IllegalAuthority`, never treated as if the
/// original parent still existed.
pub proof fn stale_reference_rejected(
    m: RecordMap,
    parent: Seq<u8>,
    beneficiary: Seq<u8>,
    tag: Seq<u8>,
    forged_custody: Seq<u8>,
    forged_value: u64,
    forged_data: Seq<u8>,
    child: Seq<u8>,
    beneficiary2: Seq<u8>,
)
    requires
        tag != neutral_tag(),
        close_parent_outcome(m, parent, beneficiary, tag) is None,
        forged_custody != tag,
        child != parent,
        child != beneficiary2,
        parent != beneficiary2,
    ensures
        close_child_outcome(
            close_parent_post(m, parent, beneficiary).insert(
                parent,
                RecordModel { value: forged_value, custody: forged_custody, data: forged_data },
            ),
            child,
            parent,
            beneficiary2,
            tag,
        ) == Some(LifecycleError::IllegalAuthority),
{
}

/// One address never serves two roles: a call naming the same address for
/// the child and parent roles (or either of them and the beneficiary role)
/// is refused with `AliasedRecords` before anything is read or mutated.
pub proof fn aliased_roles_rejected(
    m: RecordMap,
    child: Seq<u8>,
    parent: Seq<u8>,
    beneficiary: Seq<u8>,
    tag: Seq<u8>,
)
    requires
        child == parent || child == beneficiary || parent == beneficiary,
    ensures
        close_child_outcome(m, child, parent, beneficiary, tag) == Some(
            LifecycleError::AliasedRecords,
        ),
        parent == beneficiary ==> close_parent_outcome(m, parent, beneficiary, tag) == Some(
            LifecycleError::AliasedRecords,
        ),
{
}

/// Reclamation is not repeatable: after a successful `close_child`, a second
/// `close_child` naming the same child is refused outright -- the beneficiary
/// can never be credited twice for one record.
pub proof fn reclaimed_child_not_closable_again(
    m: RecordMap,
    child: Seq<u8>,
    parent: Seq<u8>,
    beneficiary: Seq<u8>,
    beneficiary2: Seq<u8>,
    tag: Seq<u8>,
)
    requires
        tag != neutral_tag(),
        close_child_outcome(m, child, parent, beneficiary, tag) is None,
        child != beneficiary2,
        parent != beneficiary2,
    ensures
        close_child_outcome(
            close_child_post(m, child, parent, beneficiary),
            child,
            parent,
            beneficiary2,
            tag,
        ) == Some(LifecycleError::IllegalAuthority),
{
    lemma_auto_spec_u64_to_from_le_bytes();
    let m2 = close_child_post(m, child, parent, beneficiary);
    assert(record_at(m2, child) == vacant_record());
    assert(record_at(m2, parent).custody == tag);
    assert(record_at(m2, parent).value == record_at(m, parent).value);
    assert(record_at(m2, parent).data.len() == 8);
}

/// Reclamation is not repeatable for parents either: after a successful
/// `close_parent`, a second `close_parent` naming the same address is
/// refused outright.
pub proof fn reclaimed_parent_not_closable_again(
    m: RecordMap,
    parent: Seq<u8>,
    beneficiary: Seq<u8>,
    beneficiary2: Seq<u8>,
    tag: Seq<u8>,
)
    requires
        tag != neutral_tag(),
        close_parent_outcome(m, parent, beneficiary, tag) is None,
        parent != beneficiary2,
    ensures
        close_parent_outcome(
            close_parent_post(m, parent, beneficiary),
            parent,
            beneficiary2,
            tag,
        ) == Some(LifecycleError::IllegalAuthority),
{
    assert(record_at(close_parent_post(m, parent, beneficiary), parent) == vacant_record());
}

} // verus!
