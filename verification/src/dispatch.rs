//! The operation selector and the positional-role dispatcher: one byte
//! picks the operation, an ordered address list supplies its roles.

use vstd::prelude::*;
use crate::errors::LifecycleError;
use crate::model::{
    close_child_outcome, close_child_post, close_parent_outcome, close_parent_post, inv,
    RecordMap,
};
use crate::record::Address;
use crate::registry::Registry;

verus! {

/// The two operations of the close protocol.
#[derive(Clone, Copy, Debug, PartialEq, Eq, Structural)]
pub enum Operation {
    /// Close a child record; roles: child, parent, beneficiary.
    CloseChild,
    /// Close a parent record; roles: parent, beneficiary.
    CloseParent,
}

/// The operation selected by the first byte of an instruction payload; any
/// other selector, or an empty payload, names no operation.
pub open spec fn select_operation_spec(payload: Seq<u8>) -> Result<Operation, LifecycleError> {
    if payload.len() == 0 {
        Err(LifecycleError::UnknownOperation)
    } else if payload[0] == 0 {
        Ok(Operation::CloseChild)
    } else if payload[0] == 1 {
        Ok(Operation::CloseParent)
    } else {
        Err(LifecycleError::UnknownOperation)
    }
}

/// Reads the operation selector out of an instruction payload.
pub fn select_operation(payload: &Vec<u8>) -> (r: Result<Operation, LifecycleError>)
    ensures
        r == select_operation_spec(payload@),
{
    if payload.len() == 0 {
        Err(LifecycleError::UnknownOperation)
    } else if payload[0] == 0 {
        Ok(Operation::CloseChild)
    } else if payload[0] == 1 {
        Ok(Operation::CloseParent)
    } else {
        Err(LifecycleError::UnknownOperation)
    }
}

/// The validation outcome of one dispatched call: the selector is read, the
/// positional role list must be long enough for the selected operation, and
/// the operation's own validation chain decides the rest.
pub open spec fn apply_outcome(
    m: RecordMap,
    payload: Seq<u8>,
    roles: Seq<Seq<u8>>,
    tag: Seq<u8>,
) -> Option<LifecycleError> {
    match select_operation_spec(payload) {
        Err(e) => Some(e),
        Ok(Operation::CloseChild) => if roles.len() < 3 {
            Some(LifecycleError::InvalidLayout)
        } else {
            close_child_outcome(m, roles[0], roles[1], roles[2], tag)
        },
        Ok(Operation::CloseParent) => if roles.len() < 2 {
            Some(LifecycleError::InvalidLayout)
        } else {
            close_parent_outcome(m, roles[0], roles[1], tag)
        },
    }
}

/// The record space after one successfully dispatched call.
pub open spec fn apply_post(m: RecordMap, payload: Seq<u8>, roles: Seq<Seq<u8>>) -> RecordMap {
    match select_operation_spec(payload) {
        Err(_) => m,
        Ok(Operation::CloseChild) => if roles.len() < 3 {
            m
        } else {
            close_child_post(m, roles[0], roles[1], roles[2])
        },
        Ok(Operation::CloseParent) => if roles.len() < 2 {
            m
        } else {
            close_parent_post(m, roles[0], roles[1])
        },
    }
}

impl Registry {
    /// Dispatches one call: the payload's first byte selects the operation,
    /// and the ordered role list supplies the record addresses positionally.
    pub fn apply(&mut self, payload: &Vec<u8>, roles: &Vec<Address>) -> (r: Result<
        (),
        LifecycleError,
    >)
        requires
            old(self).wf(),
        ensures
            final(self).wf(),
            final(self).authority() == old(self).authority(),
            final(self).total_value() == old(self).total_value(),
            match r {
                Ok(()) => {
                    &&& apply_outcome(
                        old(self)@,
                        payload@,
                        roles.deep_view(),
                        old(self).authority(),
                    ) is None
                    &&& final(self)@ == apply_post(old(self)@, payload@, roles.deep_view())
                },
                Err(e) => {
                    &&& apply_outcome(
                        old(self)@,
                        payload@,
                        roles.deep_view(),
                        old(self).authority(),
                    ) == Some(e)
                    &&& final(self)@ == old(self)@
                },
            },
            inv(old(self)@, old(self).authority()) ==> inv(final(self)@, final(self).authority()),
    {
        let op = match select_operation(payload) {
            Err(e) => {
                return Err(e);
            },
            Ok(op) => op,
        };
        match op {
            Operation::CloseChild => {
                if roles.len() < 3 {
                    return Err(LifecycleError::InvalidLayout);
                }
                let child = roles[0];
                let parent = roles[1];
                let beneficiary = roles[2];
                proof {
                    assert(roles.deep_view()[0] == child@);
                    assert(roles.deep_view()[1] == parent@);
                    assert(roles.deep_view()[2] == beneficiary@);
                }
                self.close_child(&child, &parent, &beneficiary)
            },
            Operation::CloseParent => {
                if roles.len() < 2 {
                    return Err(LifecycleError::InvalidLayout);
                }
                let parent = roles[0];
                let beneficiary = roles[1];
                proof {
                    assert(roles.deep_view()[0] == parent@);
                    assert(roles.deep_view()[1] == beneficiary@);
                }
                self.close_parent(&parent, &beneficiary)
            },
        }
    }
}

} // verus!
