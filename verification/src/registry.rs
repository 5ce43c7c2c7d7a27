//! The executable record space: lookup, creation, host loading, and the
//! close protocol, verified against the model in [`crate::model`].

use vstd::prelude::*;
use vstd::bytes::{
    lemma_auto_spec_u64_to_from_le_bytes, spec_u64_from_le_bytes, spec_u64_to_le_bytes,
    u64_from_le_bytes, u64_to_le_bytes,
};
use vstd::slice::slice_to_vec;
use crate::errors::LifecycleError;
use crate::model::{
    close_child_outcome, close_child_post, close_parent_outcome, close_parent_post,
    create_child_post, create_parent_post, declared_count, inv, is_parent, record_at, RecordMap,
};
use crate::record::{
    addr_eq, neutral_tag, neutral_tag_bytes, vacant_record, Address, Record, RecordModel, Tag,
};
use crate::laws::{
    close_child_preserves_inv, close_parent_preserves_inv, create_child_preserves_inv,
    create_parent_preserves_inv, install_preserves_inv,
};

verus! {

/// One hosted record together with the address hosting it.
pub struct Slot {
    pub addr: Address,
    pub rec: Record,
}

/// The mathematical model of a [`Slot`].
#[verifier::ext_equal]
pub struct SlotModel {
    pub addr: Seq<u8>,
    pub rec: RecordModel,
}

impl View for Slot {
    type V = SlotModel;

    open spec fn view(&self) -> SlotModel {
        SlotModel { addr: self.addr@, rec: self.rec@ }
    }
}

spec fn distinct_addrs(s: Seq<SlotModel>) -> bool {
    forall|i: int, j: int| 0 <= i < j < s.len() ==> s[i].addr != s[j].addr
}

spec fn has_addr(s: Seq<SlotModel>, a: Seq<u8>) -> bool {
    exists|i: int| 0 <= i < s.len() && (#[trigger] s[i]).addr == a
}

spec fn idx_of(s: Seq<SlotModel>, a: Seq<u8>) -> int {
    choose|i: int| 0 <= i < s.len() && (#[trigger] s[i]).addr == a
}

spec fn map_of(s: Seq<SlotModel>) -> RecordMap {
    Map::new(|a: Seq<u8>| has_addr(s, a), |a: Seq<u8>| s[idx_of(s, a)].rec)
}

spec fn sum_values(s: Seq<SlotModel>) -> int
    decreases s.len(),
{
    if s.len() == 0 {
        0
    } else {
        s[0].rec.value + sum_values(s.drop_first())
    }
}

proof fn lemma_unique_idx(s: Seq<SlotModel>, i: int)
    requires
        distinct_addrs(s),
        0 <= i < s.len(),
    ensures
        has_addr(s, s[i].addr),
        idx_of(s, s[i].addr) == i,
{
    assert(has_addr(s, s[i].addr));
    let j = idx_of(s, s[i].addr);
    assert(0 <= j < s.len() && s[j].addr == s[i].addr);
    if i < j {
        assert(s[i].addr != s[j].addr);
    } else if j < i {
        assert(s[j].addr != s[i].addr);
    }
}

proof fn lemma_map_at(s: Seq<SlotModel>, i: int)
    requires
        distinct_addrs(s),
        0 <= i < s.len(),
    ensures
        map_of(s).dom().contains(s[i].addr),
        map_of(s)[s[i].addr] == s[i].rec,
        record_at(map_of(s), s[i].addr) == s[i].rec,
{
    lemma_unique_idx(s, i);
}

proof fn lemma_map_absent(s: Seq<SlotModel>, a: Seq<u8>)
    requires
        !has_addr(s, a),
    ensures
        !map_of(s).dom().contains(a),
        record_at(map_of(s), a) == vacant_record(),
{
}

proof fn lemma_update_map(s: Seq<SlotModel>, i: int, sm: SlotModel)
    requires
        distinct_addrs(s),
        0 <= i < s.len(),
        sm.addr == s[i].addr,
    ensures
        distinct_addrs(s.update(i, sm)),
        forall|a: Seq<u8>| has_addr(s.update(i, sm), a) == has_addr(s, a),
        map_of(s.update(i, sm)) == map_of(s).insert(sm.addr, sm.rec),
{
    let s2 = s.update(i, sm);
    assert forall|a: Seq<u8>| has_addr(s2, a) == has_addr(s, a) by {
        if has_addr(s, a) {
            let j = idx_of(s, a);
            assert(0 <= j < s.len() && s[j].addr == a);
            assert(s2[j].addr == a);
            assert(has_addr(s2, a));
        }
        if has_addr(s2, a) {
            let j = idx_of(s2, a);
            assert(0 <= j < s2.len() && s2[j].addr == a);
            assert(s[j].addr == a);
            assert(has_addr(s, a));
        }
    }
    assert(map_of(s2) =~= map_of(s).insert(sm.addr, sm.rec)) by {
        assert forall|a: Seq<u8>| map_of(s2).dom().contains(a) implies map_of(s2)[a] == map_of(
            s,
        ).insert(sm.addr, sm.rec)[a] by {
            let j = idx_of(s2, a);
            assert(0 <= j < s2.len() && s2[j].addr == a);
            if a == sm.addr {
                lemma_unique_idx(s2, i);
                assert(j == i);
            } else {
                assert(j != i);
                assert(s[j] == s2[j]);
                lemma_unique_idx(s, j);
            }
        }
    }
}

proof fn lemma_push_map(s: Seq<SlotModel>, sm: SlotModel)
    requires
        distinct_addrs(s),
        !has_addr(s, sm.addr),
    ensures
        distinct_addrs(s.push(sm)),
        map_of(s.push(sm)) == map_of(s).insert(sm.addr, sm.rec),
{
    let s2 = s.push(sm);
    assert forall|i: int, j: int| 0 <= i < j < s2.len() implies s2[i].addr != s2[j].addr by {
        if j == s.len() {
            if s2[i].addr == sm.addr {
                assert(has_addr(s, sm.addr));
            }
        }
    }
    assert(map_of(s2) =~= map_of(s).insert(sm.addr, sm.rec)) by {
        assert forall|a: Seq<u8>| #![auto] has_addr(s, a) implies has_addr(s2, a) && map_of(
            s2,
        ).dom().contains(a) by {
            let j = idx_of(s, a);
            assert(0 <= j < s.len() && s[j].addr == a);
            assert(s2[j].addr == a);
        }
        assert(s2[s.len() as int].addr == sm.addr);
        assert(has_addr(s2, sm.addr));
        assert forall|a: Seq<u8>| map_of(s2).dom().contains(a) implies map_of(s2)[a] == map_of(
            s,
        ).insert(sm.addr, sm.rec)[a] by {
            let j = idx_of(s2, a);
            assert(0 <= j < s2.len() && s2[j].addr == a);
            if a == sm.addr {
                lemma_unique_idx(s2, s.len() as int);
                assert(j == s.len());
            } else {
                assert(j != s.len());
                assert(s[j] == s2[j]);
                lemma_unique_idx(s, j);
                assert(has_addr(s, a));
            }
        }
    }
}

proof fn lemma_sum_nonneg(s: Seq<SlotModel>)
    ensures
        sum_values(s) >= 0,
    decreases s.len(),
{
    if s.len() > 0 {
        lemma_sum_nonneg(s.drop_first());
    }
}

proof fn lemma_sum_one(s: Seq<SlotModel>, i: int)
    requires
        0 <= i < s.len(),
    ensures
        s[i].rec.value <= sum_values(s),
    decreases s.len(),
{
    lemma_sum_nonneg(s.drop_first());
    if i == 0 {
    } else {
        lemma_sum_one(s.drop_first(), i - 1);
    }
}

proof fn lemma_sum_pair(s: Seq<SlotModel>, i: int, j: int)
    requires
        0 <= i < s.len(),
        0 <= j < s.len(),
        i != j,
    ensures
        s[i].rec.value + s[j].rec.value <= sum_values(s),
    decreases s.len(),
{
    if i == 0 {
        lemma_sum_one(s.drop_first(), j - 1);
    } else if j == 0 {
        lemma_sum_one(s.drop_first(), i - 1);
    } else {
        lemma_sum_pair(s.drop_first(), i - 1, j - 1);
    }
}

proof fn lemma_sum_update(s: Seq<SlotModel>, i: int, sm: SlotModel)
    requires
        0 <= i < s.len(),
    ensures
        sum_values(s.update(i, sm)) == sum_values(s) - s[i].rec.value + sm.rec.value,
    decreases s.len(),
{
    let s2 = s.update(i, sm);
    if i == 0 {
        assert(s2.drop_first() =~= s.drop_first());
    } else {
        assert(s2.drop_first() =~= s.drop_first().update(i - 1, sm));
        lemma_sum_update(s.drop_first(), i - 1, sm);
    }
}

proof fn lemma_sum_push(s: Seq<SlotModel>, sm: SlotModel)
    ensures
        sum_values(s.push(sm)) == sum_values(s) + sm.rec.value,
    decreases s.len(),
{
    let s2 = s.push(sm);
    if s.len() == 0 {
        assert(s2.drop_first() =~= Seq::<SlotModel>::empty());
        assert(s2[0] == sm);
        assert(sum_values(s2.drop_first()) == 0);
        assert(sum_values(s2) == sm.rec.value);
    } else {
        assert(s2.drop_first() =~= s.drop_first().push(sm));
        lemma_sum_push(s.drop_first(), sm);
        assert(s2[0] == s[0]);
        assert(sum_values(s2) == s2[0].rec.value + sum_values(s2.drop_first()));
    }
}

/// The record space of one authority: every record hosted at some address,
/// together with the custody tag of the authority this registry executes as.
/// The tag is injected at construction and never changes.
pub struct Registry {
    slots: Vec<Slot>,
    tag: Tag,
}

impl View for Registry {
    type V = RecordMap;

    closed spec fn view(&self) -> RecordMap {
        map_of(self.rep())
    }
}

impl Registry {
    spec fn rep(self) -> Seq<SlotModel> {
        Seq::new(self.slots@.len(), |i: int| self.slots@[i]@)
    }

    /// The custody tag of the authority executing through this registry.
    pub closed spec fn authority(self) -> Seq<u8> {
        self.tag@
    }

    /// The sum of the attached values of every hosted record.  Close
    /// operations conserve it; creations raise it by the created record's
    /// value.
    pub closed spec fn total_value(self) -> int {
        sum_values(self.rep())
    }

    /// Structural well-formedness: one record per address, a total attached
    /// value that fits the value type, and an authority distinct from the
    /// neutral tag.
    pub closed spec fn wf(self) -> bool {
        &&& distinct_addrs(self.rep())
        &&& sum_values(self.rep()) <= u64::MAX
        &&& self.tag@ != neutral_tag()
    }

    /// Creates an empty record space for the given authority.
    pub fn new(program_tag: Tag) -> (r: Registry)
        requires
            program_tag@ != neutral_tag(),
        ensures
            r.wf(),
            r@ == Map::<Seq<u8>, RecordModel>::empty(),
            r.authority() == program_tag@,
            r.total_value() == 0,
            inv(r@, r.authority()),
    {
        let r = Registry { slots: Vec::new(), tag: program_tag };
        proof {
            assert(r.rep() =~= Seq::<SlotModel>::empty());
            assert(r@ =~= Map::<Seq<u8>, RecordModel>::empty());
        }
        r
    }

    fn find(&self, a: &Address) -> (r: Option<usize>)
        ensures
            match r {
                Some(i) => 0 <= i < self.rep().len() && self.rep()[i as int].addr == a@,
                None => !has_addr(self.rep(), a@),
            },
    {
        let mut i: usize = 0;
        while i < self.slots.len()
            invariant
                i <= self.slots@.len(),
                forall|j: int| 0 <= j < i ==> (#[trigger] self.rep()[j]).addr != a@,
            decreases self.slots@.len() - i,
        {
            if addr_eq(&self.slots[i].addr, a) {
                assert(self.rep()[i as int].addr == a@);
                return Some(i);
            }
            i = i + 1;
        }
        None
    }

    /// Closes a child record.  The parent and the child are both re-validated
    /// from scratch -- custody, liveness, layout, and the child's stored
    /// back-reference compared against the parent address actually supplied
    /// in this call -- before the parent's declared count is decremented with
    /// a checked subtraction and the child is reclaimed in one atomic step:
    /// content dropped, custody cleared to the neutral tag, storage shrunk to
    /// empty, and its whole attached value credited to the beneficiary.  A
    /// failed call mutates nothing.
    pub fn close_child(&mut self, child: &Address, parent: &Address, beneficiary: &Address) -> (r:
        Result<(), LifecycleError>)
        requires
            old(self).wf(),
        ensures
            final(self).wf(),
            final(self).authority() == old(self).authority(),
            match r {
                Ok(()) => {
                    &&& close_child_outcome(
                        old(self)@,
                        child@,
                        parent@,
                        beneficiary@,
                        old(self).authority(),
                    ) is None
                    &&& final(self)@ == close_child_post(old(self)@, child@, parent@, beneficiary@)
                    &&& record_at(old(self)@, beneficiary@).value + record_at(
                        old(self)@,
                        child@,
                    ).value <= u64::MAX
                    &&& final(self).total_value() == old(self).total_value()
                },
                Err(e) => {
                    &&& close_child_outcome(
                        old(self)@,
                        child@,
                        parent@,
                        beneficiary@,
                        old(self).authority(),
                    ) == Some(e)
                    &&& final(self)@ == old(self)@
                    &&& final(self).total_value() == old(self).total_value()
                },
            },
            inv(old(self)@, old(self).authority()) ==> inv(final(self)@, final(self).authority()),
    {
        let ghost m = self@;
        let ghost tag_g = self.tag@;
        let ghost s0 = self.rep();
        if addr_eq(child, parent) || addr_eq(child, beneficiary) || addr_eq(parent, beneficiary) {
            return Err(LifecycleError::AliasedRecords);
        }
        // Validate the parent: custody, liveness, layout.
        let pi = match self.find(parent) {
            None => {
                proof {
                    lemma_map_absent(s0, parent@);
                }
                return Err(LifecycleError::IllegalAuthority);
            },
            Some(i) => i,
        };
        proof {
            lemma_map_at(s0, pi as int);
        }
        if !addr_eq(&self.slots[pi].rec.custody, &self.tag) {
            return Err(LifecycleError::IllegalAuthority);
        }
        if self.slots[pi].rec.value == 0 {
            return Err(LifecycleError::StaleOrForgedReference);
        }
        if self.slots[pi].rec.data.len() != 8 {
            return Err(LifecycleError::InvalidLayout);
        }
        // Validate the child: custody, liveness, layout, back-reference.
        let ci = match self.find(child) {
            None => {
                proof {
                    lemma_map_absent(s0, child@);
                }
                return Err(LifecycleError::IllegalAuthority);
            },
            Some(i) => i,
        };
        proof {
            lemma_map_at(s0, ci as int);
        }
        if !addr_eq(&self.slots[ci].rec.custody, &self.tag) {
            return Err(LifecycleError::IllegalAuthority);
        }
        if self.slots[ci].rec.value == 0 {
            return Err(LifecycleError::StaleOrForgedReference);
        }
        if self.slots[ci].rec.data.len() != 32 {
            return Err(LifecycleError::InvalidLayout);
        }
        let back = crate::record::bytes_to_address(&self.slots[ci].rec.data);
        if !addr_eq(&back, parent) {
            return Err(LifecycleError::StaleOrForgedReference);
        }
        // The decrement is checked: a zero count never wraps.
        let count = u64_from_le_bytes(self.slots[pi].rec.data.as_slice());
        if count == 0 {
            return Err(LifecycleError::InvariantViolation);
        }
        proof {
            assert(close_child_outcome(m, child@, parent@, beneficiary@, tag_g) is None);
            assert(pi != ci);
        }
        let bi_opt = self.find(beneficiary);
        let cv = self.slots[ci].rec.value;
        // Update the parent's declared count.
        let pv = self.slots[pi].rec.value;
        let pcust = self.slots[pi].rec.custody;
        let paddr = self.slots[pi].addr;
        let new_data = u64_to_le_bytes(count - 1);
        let ps = Slot { addr: paddr, rec: Record { value: pv, custody: pcust, data: new_data } };
        let ghost pm = ps@;
        self.slots[pi] = ps;
        let ghost s1 = self.rep();
        proof {
            assert(s1 =~= s0.update(pi as int, pm));
            lemma_update_map(s0, pi as int, pm);
            lemma_sum_update(s0, pi as int, pm);
        }
        // Reclaim the child: wipe content, clear custody, shrink to empty.
        let caddr = self.slots[ci].addr;
        let cs = Slot {
            addr: caddr,
            rec: Record { value: 0, custody: neutral_tag_bytes(), data: Vec::new() },
        };
        let ghost cm = cs@;
        self.slots[ci] = cs;
        let ghost s2 = self.rep();
        proof {
            assert(s2 =~= s1.update(ci as int, cm));
            lemma_update_map(s1, ci as int, cm);
            lemma_sum_update(s1, ci as int, cm);
            assert(cm.rec =~= vacant_record());
        }
        // Credit the child's whole attached value to the beneficiary.
        match bi_opt {
            Some(bi) => {
                proof {
                    assert(s0[bi as int].addr == beneficiary@);
                    assert(bi != pi && bi != ci);
                    assert(s2[bi as int] == s0[bi as int]);
                    lemma_sum_pair(s0, bi as int, ci as int);
                    lemma_map_at(s0, bi as int);
                }
                let bv = self.slots[bi].rec.value;
                let baddr = self.slots[bi].addr;
                let bcust = self.slots[bi].rec.custody;
                let bdata = slice_to_vec(self.slots[bi].rec.data.as_slice());
                let bs = Slot {
                    addr: baddr,
                    rec: Record { value: bv + cv, custody: bcust, data: bdata },
                };
                let ghost bm = bs@;
                self.slots[bi] = bs;
                proof {
                    assert(self.rep() =~= s2.update(bi as int, bm));
                    lemma_update_map(s2, bi as int, bm);
                    lemma_sum_update(s2, bi as int, bm);
                }
            },
            None => {
                proof {
                    lemma_map_absent(s0, beneficiary@);
                    lemma_sum_one(s0, ci as int);
                    lemma_sum_nonneg(s0);
                }
                let bs = Slot {
                    addr: *beneficiary,
                    rec: Record { value: cv, custody: neutral_tag_bytes(), data: Vec::new() },
                };
                let ghost bm = bs@;
                self.slots.push(bs);
                proof {
                    assert(self.rep() =~= s2.push(bm));
                    assert(!has_addr(s2, beneficiary@));
                    lemma_push_map(s2, bm);
                    lemma_sum_push(s2, bm);
                }
            },
        }
        proof {
            lemma_auto_spec_u64_to_from_le_bytes();
            let pr = record_at(m, parent@);
            let cr = record_at(m, child@);
            let br = record_at(m, beneficiary@);
            assert(pm.rec =~= RecordModel {
                value: pr.value,
                custody: pr.custody,
                data: spec_u64_to_le_bytes((spec_u64_from_le_bytes(pr.data) - 1) as u64),
            });
            assert(self@ =~= close_child_post(m, child@, parent@, beneficiary@));
            if inv(m, tag_g) {
                close_child_preserves_inv(m, child@, parent@, beneficiary@, tag_g);
            }
        }
        Ok(())
    }

    /// Closes a parent record.  Its custody tag must belong to this
    /// authority and -- the load-bearing check -- its declared count must be
    /// zero: a parent with live children is never reclaimed.  On success the
    /// parent is reclaimed in one atomic step and its whole attached value
    /// is credited to the beneficiary.  A failed call mutates nothing.
    pub fn close_parent(&mut self, parent: &Address, beneficiary: &Address) -> (r: Result<
        (),
        LifecycleError,
    >)
        requires
            old(self).wf(),
        ensures
            final(self).wf(),
            final(self).authority() == old(self).authority(),
            match r {
                Ok(()) => {
                    &&& close_parent_outcome(
                        old(self)@,
                        parent@,
                        beneficiary@,
                        old(self).authority(),
                    ) is None
                    &&& final(self)@ == close_parent_post(old(self)@, parent@, beneficiary@)
                    &&& record_at(old(self)@, beneficiary@).value + record_at(
                        old(self)@,
                        parent@,
                    ).value <= u64::MAX
                    &&& final(self).total_value() == old(self).total_value()
                },
                Err(e) => {
                    &&& close_parent_outcome(
                        old(self)@,
                        parent@,
                        beneficiary@,
                        old(self).authority(),
                    ) == Some(e)
                    &&& final(self)@ == old(self)@
                    &&& final(self).total_value() == old(self).total_value()
                },
            },
            inv(old(self)@, old(self).authority()) ==> inv(final(self)@, final(self).authority()),
    {
        let ghost m = self@;
        let ghost tag_g = self.tag@;
        let ghost s0 = self.rep();
        if addr_eq(parent, beneficiary) {
            return Err(LifecycleError::AliasedRecords);
        }
        let pi = match self.find(parent) {
            None => {
                proof {
                    lemma_map_absent(s0, parent@);
                }
                return Err(LifecycleError::IllegalAuthority);
            },
            Some(i) => i,
        };
        proof {
            lemma_map_at(s0, pi as int);
        }
        if !addr_eq(&self.slots[pi].rec.custody, &self.tag) {
            return Err(LifecycleError::IllegalAuthority);
        }
        if self.slots[pi].rec.data.len() != 8 {
            return Err(LifecycleError::InvalidLayout);
        }
        let count = u64_from_le_bytes(self.slots[pi].rec.data.as_slice());
        if count != 0 {
            return Err(LifecycleError::ChildrenStillReferencing);
        }
        proof {
            assert(close_parent_outcome(m, parent@, beneficiary@, tag_g) is None);
        }
        let bi_opt = self.find(beneficiary);
        let pv = self.slots[pi].rec.value;
        // Reclaim the parent: wipe content, clear custody, shrink to empty.
        let paddr = self.slots[pi].addr;
        let ps = Slot {
            addr: paddr,
            rec: Record { value: 0, custody: neutral_tag_bytes(), data: Vec::new() },
        };
        let ghost pm = ps@;
        self.slots[pi] = ps;
        let ghost s1 = self.rep();
        proof {
            assert(s1 =~= s0.update(pi as int, pm));
            lemma_update_map(s0, pi as int, pm);
            lemma_sum_update(s0, pi as int, pm);
            assert(pm.rec =~= vacant_record());
        }
        // Credit the parent's whole attached value to the beneficiary.
        match bi_opt {
            Some(bi) => {
                proof {
                    assert(s0[bi as int].addr == beneficiary@);
                    assert(bi != pi);
                    assert(s1[bi as int] == s0[bi as int]);
                    lemma_sum_pair(s0, bi as int, pi as int);
                    lemma_map_at(s0, bi as int);
                }
                let bv = self.slots[bi].rec.value;
                let baddr = self.slots[bi].addr;
                let bcust = self.slots[bi].rec.custody;
                let bdata = slice_to_vec(self.slots[bi].rec.data.as_slice());
                let bs = Slot {
                    addr: baddr,
                    rec: Record { value: bv + pv, custody: bcust, data: bdata },
                };
                let ghost bm = bs@;
                self.slots[bi] = bs;
                proof {
                    assert(self.rep() =~= s1.update(bi as int, bm));
                    lemma_update_map(s1, bi as int, bm);
                    lemma_sum_update(s1, bi as int, bm);
                }
            },
            None => {
                proof {
                    lemma_map_absent(s0, beneficiary@);
                    lemma_sum_one(s0, pi as int);
                    lemma_sum_nonneg(s0);
                }
                let bs = Slot {
                    addr: *beneficiary,
                    rec: Record { value: pv, custody: neutral_tag_bytes(), data: Vec::new() },
                };
                let ghost bm = bs@;
                self.slots.push(bs);
                proof {
                    assert(self.rep() =~= s1.push(bm));
                    assert(!has_addr(s1, beneficiary@));
                    lemma_push_map(s1, bm);
                    lemma_sum_push(s1, bm);
                }
            },
        }
        proof {
            assert(self@ =~= close_parent_post(m, parent@, beneficiary@));
            if inv(m, tag_g) {
                close_parent_preserves_inv(m, parent@, beneficiary@, tag_g);
            }
        }
        Ok(())
    }

    /// Installs a fresh parent record with a declared count of zero at a
    /// vacant address, under this authority's custody.  Creation is the
    /// host's act; the preconditions are the host's guarantees: the address
    /// hosts nothing yet, the record is funded, and the total attached value
    /// still fits the value type.
    pub fn create_parent(&mut self, addr: &Address, value: u64)
        requires
            old(self).wf(),
            record_at(old(self)@, addr@) == vacant_record(),
            value > 0,
            old(self).total_value() + value <= u64::MAX,
        ensures
            final(self).wf(),
            final(self).authority() == old(self).authority(),
            final(self)@ == create_parent_post(old(self)@, addr@, old(self).authority(), value),
            final(self).total_value() == old(self).total_value() + value,
            inv(old(self)@, old(self).authority()) ==> inv(final(self)@, final(self).authority()),
    {
        let ghost m = self@;
        let ghost tag_g = self.tag@;
        let ghost s0 = self.rep();
        let data = u64_to_le_bytes(0);
        let s = Slot { addr: *addr, rec: Record { value, custody: self.tag, data } };
        let ghost sm = s@;
        match self.find(addr) {
            Some(i) => {
                proof {
                    lemma_map_at(s0, i as int);
                }
                self.slots[i] = s;
                proof {
                    assert(self.rep() =~= s0.update(i as int, sm));
                    lemma_update_map(s0, i as int, sm);
                    lemma_sum_update(s0, i as int, sm);
                }
            },
            None => {
                self.slots.push(s);
                proof {
                    assert(self.rep() =~= s0.push(sm));
                    lemma_push_map(s0, sm);
                    lemma_sum_push(s0, sm);
                }
            },
        }
        proof {
            assert(self@ =~= create_parent_post(m, addr@, tag_g, value));
            if inv(m, tag_g) {
                create_parent_preserves_inv(m, addr@, tag_g, value);
            }
        }
    }

    /// Installs a fresh child record at a vacant address, bound to a parent
    /// record of this authority, and raises that parent's declared count by
    /// one in the same step -- the creation-side half of the counting
    /// discipline, a host-side responsibility stated here as preconditions.
    pub fn create_child(&mut self, child: &Address, parent: &Address, value: u64)
        requires
            old(self).wf(),
            record_at(old(self)@, child@) == vacant_record(),
            is_parent(record_at(old(self)@, parent@), old(self).authority()),
            declared_count(record_at(old(self)@, parent@)) < u64::MAX,
            value > 0,
            old(self).total_value() + value <= u64::MAX,
        ensures
            final(self).wf(),
            final(self).authority() == old(self).authority(),
            final(self)@ == create_child_post(
                old(self)@,
                child@,
                parent@,
                old(self).authority(),
                value,
            ),
            final(self).total_value() == old(self).total_value() + value,
            inv(old(self)@, old(self).authority()) ==> inv(final(self)@, final(self).authority()),
    {
        let ghost m = self@;
        let ghost tag_g = self.tag@;
        let ghost s0 = self.rep();
        proof {
            lemma_auto_spec_u64_to_from_le_bytes();
            assert(child@ != parent@);
        }
        let pi = match self.find(parent) {
            None => {
                proof {
                    lemma_map_absent(s0, parent@);
                }
                vstd::pervasive::unreached()
            },
            Some(i) => i,
        };
        proof {
            lemma_map_at(s0, pi as int);
        }
        let count = u64_from_le_bytes(self.slots[pi].rec.data.as_slice());
        let pv = self.slots[pi].rec.value;
        let pcust = self.slots[pi].rec.custody;
        let paddr = self.slots[pi].addr;
        let new_data = u64_to_le_bytes(count + 1);
        let ps = Slot { addr: paddr, rec: Record { value: pv, custody: pcust, data: new_data } };
        let ghost pm = ps@;
        self.slots[pi] = ps;
        let ghost s1 = self.rep();
        proof {
            assert(s1 =~= s0.update(pi as int, pm));
            lemma_update_map(s0, pi as int, pm);
            lemma_sum_update(s0, pi as int, pm);
        }
        let cdata = slice_to_vec(parent.as_slice());
        let cs = Slot { addr: *child, rec: Record { value, custody: self.tag, data: cdata } };
        let ghost cm = cs@;
        match self.find(child) {
            Some(ci) => {
                proof {
                    assert(s0[ci as int].addr == child@);
                    assert(ci != pi);
                    assert(s1[ci as int] == s0[ci as int]);
                    lemma_map_at(s0, ci as int);
                }
                self.slots[ci] = cs;
                proof {
                    assert(self.rep() =~= s1.update(ci as int, cm));
                    lemma_update_map(s1, ci as int, cm);
                    lemma_sum_update(s1, ci as int, cm);
                }
            },
            None => {
                proof {
                    lemma_map_absent(s0, child@);
                }
                self.slots.push(cs);
                proof {
                    assert(self.rep() =~= s1.push(cm));
                    assert(!has_addr(s1, child@));
                    lemma_push_map(s1, cm);
                    lemma_sum_push(s1, cm);
                }
            },
        }
        proof {
            assert(self@ =~= create_child_post(m, child@, parent@, tag_g, value));
            if inv(m, tag_g) {
                create_child_preserves_inv(m, child@, parent@, tag_g, value);
            }
        }
    }

    /// Installs a record of another authority at a vacant address -- the
    /// move an adversary makes when it reuses a freed address.  The host
    /// guarantees only that no other authority can forge this registry's own
    /// custody tag; the record's value and content are arbitrary.
    pub fn install_foreign(&mut self, addr: &Address, custody: &Tag, value: u64, data: Vec<u8>)
        requires
            old(self).wf(),
            record_at(old(self)@, addr@) == vacant_record(),
            custody@ != old(self).authority(),
            old(self).total_value() + value <= u64::MAX,
        ensures
            final(self).wf(),
            final(self).authority() == old(self).authority(),
            final(self)@ == old(self)@.insert(
                addr@,
                RecordModel { value, custody: custody@, data: data@ },
            ),
            final(self).total_value() == old(self).total_value() + value,
            inv(old(self)@, old(self).authority()) ==> inv(final(self)@, final(self).authority()),
    {
        let ghost m = self@;
        let ghost tag_g = self.tag@;
        let ghost s0 = self.rep();
        let ghost data_g = data@;
        let s = Slot { addr: *addr, rec: Record { value, custody: *custody, data } };
        let ghost sm = s@;
        match self.find(addr) {
            Some(i) => {
                proof {
                    lemma_map_at(s0, i as int);
                }
                self.slots[i] = s;
                proof {
                    assert(self.rep() =~= s0.update(i as int, sm));
                    lemma_update_map(s0, i as int, sm);
                    lemma_sum_update(s0, i as int, sm);
                }
            },
            None => {
                self.slots.push(s);
                proof {
                    assert(self.rep() =~= s0.push(sm));
                    lemma_push_map(s0, sm);
                    lemma_sum_push(s0, sm);
                }
            },
        }
        proof {
            assert(self@ =~= m.insert(
                addr@,
                RecordModel { value, custody: custody@, data: data_g },
            ));
            if inv(m, tag_g) {
                install_preserves_inv(m, addr@, custody@, value, data_g, tag_g);
            }
        }
    }

    /// Loads one already-hosted record into the registry, as the host does
    /// when it hands a call's records over.  Unlike creation, loading makes
    /// no claim about the reference-count invariant: records reconstructed
    /// from externally-owned memory carry no trust, which is why every
    /// operation re-validates them from scratch.
    pub fn load_record(&mut self, addr: &Address, custody: &Tag, value: u64, data: Vec<u8>)
        requires
            old(self).wf(),
            record_at(old(self)@, addr@) == vacant_record(),
            old(self).total_value() + value <= u64::MAX,
        ensures
            final(self).wf(),
            final(self).authority() == old(self).authority(),
            final(self)@ == old(self)@.insert(
                addr@,
                RecordModel { value, custody: custody@, data: data@ },
            ),
            final(self).total_value() == old(self).total_value() + value,
    {
        let ghost m = self@;
        let ghost s0 = self.rep();
        let ghost data_g = data@;
        let s = Slot { addr: *addr, rec: Record { value, custody: *custody, data } };
        let ghost sm = s@;
        match self.find(addr) {
            Some(i) => {
                proof {
                    lemma_map_at(s0, i as int);
                }
                self.slots[i] = s;
                proof {
                    assert(self.rep() =~= s0.update(i as int, sm));
                    lemma_update_map(s0, i as int, sm);
                    lemma_sum_update(s0, i as int, sm);
                }
            },
            None => {
                self.slots.push(s);
                proof {
                    assert(self.rep() =~= s0.push(sm));
                    lemma_push_map(s0, sm);
                    lemma_sum_push(s0, sm);
                }
            },
        }
        proof {
            assert(self@ =~= m.insert(addr@, RecordModel { value, custody: custody@, data: data_g }));
        }
    }

    /// Whether any record is hosted at `a`.
    pub fn is_hosted(&self, a: &Address) -> (r: bool)
        ensures
            r == self@.dom().contains(a@),
    {
        match self.find(a) {
            Some(i) => {
                proof {
                    assert(has_addr(self.rep(), a@));
                }
                true
            },
            None => {
                proof {
                    lemma_map_absent(self.rep(), a@);
                }
                false
            },
        }
    }

    /// A copy of the raw content of the record hosted at `a`; empty when the
    /// address hosts nothing.
    pub fn content_at(&self, a: &Address) -> (v: Vec<u8>)
        requires
            self.wf(),
        ensures
            v@ == record_at(self@, a@).data,
    {
        match self.find(a) {
            Some(i) => {
                proof {
                    lemma_map_at(self.rep(), i as int);
                }
                slice_to_vec(self.slots[i].rec.data.as_slice())
            },
            None => {
                proof {
                    lemma_map_absent(self.rep(), a@);
                }
                Vec::new()
            },
        }
    }

    /// The custody tag this registry executes as.
    pub fn tag_bytes(&self) -> (t: &Tag)
        ensures
            t@ == self.authority(),
    {
        &self.tag
    }

    /// The attached value of the record hosted at `a`; zero when the address
    /// hosts nothing.
    pub fn value_at(&self, a: &Address) -> (v: u64)
        requires
            self.wf(),
        ensures
            v == record_at(self@, a@).value,
    {
        match self.find(a) {
            Some(i) => {
                proof {
                    lemma_map_at(self.rep(), i as int);
                }
                self.slots[i].rec.value
            },
            None => {
                proof {
                    lemma_map_absent(self.rep(), a@);
                }
                0
            },
        }
    }

    /// The custody tag of the record hosted at `a`; neutral when the address
    /// hosts nothing.
    pub fn custody_at(&self, a: &Address) -> (t: Tag)
        requires
            self.wf(),
        ensures
            t@ == record_at(self@, a@).custody,
    {
        match self.find(a) {
            Some(i) => {
                proof {
                    lemma_map_at(self.rep(), i as int);
                }
                self.slots[i].rec.custody
            },
            None => {
                proof {
                    lemma_map_absent(self.rep(), a@);
                }
                neutral_tag_bytes()
            },
        }
    }

    /// The content length of the record hosted at `a`; zero when the address
    /// hosts nothing.
    pub fn content_len_at(&self, a: &Address) -> (n: usize)
        requires
            self.wf(),
        ensures
            n == record_at(self@, a@).data.len(),
    {
        match self.find(a) {
            Some(i) => {
                proof {
                    lemma_map_at(self.rep(), i as int);
                }
                self.slots[i].rec.data.len()
            },
            None => {
                proof {
                    lemma_map_absent(self.rep(), a@);
                }
                0
            },
        }
    }

    /// The declared child count of the parent record hosted at `a`, read
    /// through the validated parent view.
    pub fn child_count_at(&self, a: &Address) -> (r: Result<u64, LifecycleError>)
        requires
            self.wf(),
        ensures
            r == crate::record::parent_count_spec(record_at(self@, a@).data),
    {
        match self.find(a) {
            Some(i) => {
                proof {
                    lemma_map_at(self.rep(), i as int);
                }
                crate::record::parent_count(&self.slots[i].rec.data)
            },
            None => {
                proof {
                    lemma_map_absent(self.rep(), a@);
                }
                Err(LifecycleError::InvalidLayout)
            },
        }
    }
}

} // verus!
