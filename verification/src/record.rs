//! Records and their validated views: a raw content region is interpreted
//! as a typed record only after its length, and where a shape carries one
//! its discriminator byte, have been checked.

use vstd::prelude::*;
use vstd::bytes::{spec_u64_from_le_bytes, u64_from_le_bytes};
use crate::errors::LifecycleError;

verus! {

/// A stable 32-byte identity naming a record's storage location.  Addresses
/// are reusable: once a record is reclaimed, an unrelated record may later be
/// hosted at the same address.
pub type Address = [u8; 32];

/// A 32-byte identifier of the authority permitted to mutate a record.
pub type Tag = [u8; 32];

/// Exact byte size of a parent record's content: a little-endian `u64`
/// live-child count.
pub const PARENT_CONTENT_LEN: usize = 8;

/// Exact byte size of a child record's content: the 32-byte address of the
/// parent it was bound to at creation.
pub const CHILD_CONTENT_LEN: usize = 32;

/// The neutral authority tag.  Reclamation clears a record's custody tag to
/// this value, so a stale reference can never pass a custody check again.
pub open spec fn neutral_tag() -> Seq<u8> {
    Seq::new(32, |_i: int| 0u8)
}

/// Builds the neutral authority tag.
pub fn neutral_tag_bytes() -> (t: Tag)
    ensures
        t@ == neutral_tag(),
{
    let t: Tag = [0u8; 32];
    proof {
        assert(t@ =~= neutral_tag());
    }
    t
}

/// Compares two 32-byte identities for equality.
pub fn addr_eq(a: &Address, b: &Address) -> (r: bool)
    ensures
        r == (a@ == b@),
{
    let mut i: usize = 0;
    while i < 32
        invariant
            i <= 32,
            forall|j: int| 0 <= j < i ==> a@[j] == b@[j],
        decreases 32 - i,
    {
        if a[i] != b[i] {
            return false;
        }
        i = i + 1;
    }
    proof {
        assert(a@ =~= b@);
    }
    true
}

/// Copies a 32-byte identity out of a record content region.
pub fn bytes_to_address(data: &Vec<u8>) -> (a: Address)
    requires
        data@.len() == 32,
    ensures
        a@ == data@,
{
    let mut a: Address = [0u8; 32];
    let mut i: usize = 0;
    while i < 32
        invariant
            i <= 32,
            data@.len() == 32,
            forall|j: int| 0 <= j < i ==> a@[j] == data@[j],
        decreases 32 - i,
    {
        a[i] = data[i];
        i = i + 1;
    }
    proof {
        assert(a@ =~= data@);
    }
    a
}

/// One externally-owned record: the transferable value attached to it, the
/// custody tag of the authority allowed to mutate it, and its raw content.
pub struct Record {
    pub value: u64,
    pub custody: Tag,
    pub data: Vec<u8>,
}

/// The mathematical model of a [`Record`].
#[verifier::ext_equal]
pub struct RecordModel {
    pub value: u64,
    pub custody: Seq<u8>,
    pub data: Seq<u8>,
}

impl View for Record {
    type V = RecordModel;

    open spec fn view(&self) -> RecordModel {
        RecordModel { value: self.value, custody: self.custody@, data: self.data@ }
    }
}

/// The model of an address that currently hosts no record: no attached value,
/// neutral custody, zero-length content.  A reclaimed record is
/// indistinguishable from one that never existed.
pub open spec fn vacant_record() -> RecordModel {
    RecordModel { value: 0, custody: neutral_tag(), data: Seq::empty() }
}

/// Shape check for a raw content region: the length must match the expected
/// byte size exactly, and, for shapes that carry one, the leading
/// discriminator byte must match the expected constant.
pub open spec fn check_shape_spec(data: Seq<u8>, expected_len: nat, disc: Option<u8>) -> Result<
    (),
    LifecycleError,
> {
    if data.len() != expected_len {
        Err(LifecycleError::InvalidLayout)
    } else {
        match disc {
            Some(d) => if data.len() == 0 || data[0] != d {
                Err(LifecycleError::TypeMismatch)
            } else {
                Ok(())
            },
            None => Ok(()),
        }
    }
}

/// Validates a raw content region against an expected shape before any typed
/// view of it may be produced.
pub fn check_shape(data: &Vec<u8>, expected_len: usize, disc: Option<u8>) -> (r: Result<
    (),
    LifecycleError,
>)
    ensures
        r == check_shape_spec(data@, expected_len as nat, disc),
{
    if data.len() != expected_len {
        return Err(LifecycleError::InvalidLayout);
    }
    match disc {
        Some(d) => {
            if data.len() == 0 {
                Err(LifecycleError::TypeMismatch)
            } else if data[0] != d {
                Err(LifecycleError::TypeMismatch)
            } else {
                Ok(())
            }
        },
        None => Ok(()),
    }
}

/// Typed read of a parent record's content: its live-child count, available
/// only when the region has exactly the parent shape.
pub open spec fn parent_count_spec(data: Seq<u8>) -> Result<u64, LifecycleError> {
    if data.len() != 8 {
        Err(LifecycleError::InvalidLayout)
    } else {
        Ok(spec_u64_from_le_bytes(data))
    }
}

/// Reads the live-child count out of a parent record's content.
pub fn parent_count(data: &Vec<u8>) -> (r: Result<u64, LifecycleError>)
    ensures
        r == parent_count_spec(data@),
{
    if data.len() != PARENT_CONTENT_LEN {
        return Err(LifecycleError::InvalidLayout);
    }
    Ok(u64_from_le_bytes(data.as_slice()))
}

/// Typed read of a child record's content: the address of the parent it was
/// bound to, available only when the region has exactly the child shape.
pub open spec fn child_parent_spec(data: Seq<u8>) -> Result<Seq<u8>, LifecycleError> {
    if data.len() != 32 {
        Err(LifecycleError::InvalidLayout)
    } else {
        Ok(data)
    }
}

/// Reads the bound parent address out of a child record's content.
pub fn child_parent(data: &Vec<u8>) -> (r: Result<Address, LifecycleError>)
    ensures
        match r {
            Ok(a) => child_parent_spec(data@) == Result::<Seq<u8>, LifecycleError>::Ok(a@),
            Err(e) => child_parent_spec(data@) == Result::<Seq<u8>, LifecycleError>::Err(e),
        },
{
    if data.len() != CHILD_CONTENT_LEN {
        return Err(LifecycleError::InvalidLayout);
    }
    Ok(bytes_to_address(data))
}

} // verus!
